//! The sandbox command-wrapping policy. The containerised provider turns
//! an agent command into a single container-runtime invocation with a
//! hardened configuration; the passthrough provider leaves commands
//! untouched. Every emitted argument is escaped so that a POSIX shell
//! splitter reads it back as exactly one word with the original text.

use vstd::prelude::*;

use crate::projects::is_digit_char;
use crate::session::{contains_seq, str_contains};
use crate::text::{chars_of, dec_spec, join_spec, join_with, push_char, u64_to_string};

verus! {

/// Top-level sandbox configuration.
pub struct SandboxConfig {
    /// Whether sandboxing is on; off by default.
    pub enabled: bool,
    /// Container image tag for sandboxed workers.
    pub image: String,
    /// Container network mode: `none`, `bridge` or `host`.
    pub network: String,
    /// Per-container resource caps.
    pub limits: ResourceLimits,
    /// Filesystem access policy.
    pub filesystem: FilesystemPolicy,
}

/// Resource limits applied to each sandboxed container.
pub struct ResourceLimits {
    /// Memory cap in the runtime's own format, such as `4g`.
    pub memory: String,
    /// Processor quota, rendered as the runtime expects it, such as `2`.
    pub cpus: String,
    /// Cap on the number of processes inside the container.
    pub pids_limit: u32,
}

/// Filesystem access policy for workspace mounts.
pub struct FilesystemPolicy {
    /// Workspace mount mode: `rw` or `ro`.
    pub workspace_access: String,
    /// Extra host paths to bind-mount, each `host:container:mode` or a
    /// bare path mounted read-only at itself.
    pub bind_mounts: Vec<String>,
}

impl Default for ResourceLimits {
    fn default() -> (r: Self)
        ensures
            r.memory@ == "4g"@,
            r.cpus@ == "2"@,
            r.pids_limit == 256,
    {
        ResourceLimits { memory: "4g".to_owned(), cpus: "2".to_owned(), pids_limit: 256 }
    }
}

impl Default for FilesystemPolicy {
    fn default() -> (r: Self)
        ensures
            r.workspace_access@ == "rw"@,
            r.bind_mounts@.len() == 0,
    {
        FilesystemPolicy { workspace_access: "rw".to_owned(), bind_mounts: Vec::new() }
    }
}

impl Default for SandboxConfig {
    fn default() -> (r: Self)
        ensures
            !r.enabled,
            r.image@ == "ubuntu:22.04"@,
            r.network@ == "bridge"@,
            r.limits.memory@ == "4g"@,
            r.limits.cpus@ == "2"@,
            r.limits.pids_limit == 256,
            r.filesystem.workspace_access@ == "rw"@,
            r.filesystem.bind_mounts@.len() == 0,
    {
        SandboxConfig {
            enabled: false,
            image: "ubuntu:22.04".to_owned(),
            network: "bridge".to_owned(),
            limits: ResourceLimits::default(),
            filesystem: FilesystemPolicy::default(),
        }
    }
}

/// The characters an argument may carry without any quoting: ASCII
/// letters and digits, underscore, dot, slash, colon, dash, equals.
pub open spec fn safe_char(c: char) -> bool {
    is_digit_char(c) || (97 <= c as u32 <= 122) || (65 <= c as u32 <= 90) || c == '_' || c == '.'
        || c == '/' || c == ':' || c == '-' || c == '='
}

/// Whether the whole argument is drawn from the safe set.
pub open spec fn all_safe(s: Seq<char>) -> bool {
    forall|i: int| 0 <= i < s.len() ==> safe_char(#[trigger] s[i])
}

fn is_safe_char(c: char) -> (r: bool)
    ensures
        r == safe_char(c),
{
    crate::projects::is_digit(c) || (97 <= c as u32 && c as u32 <= 122) || (65 <= c as u32 && c
        as u32 <= 90) || c == '_' || c == '.' || c == '/' || c == ':' || c == '-' || c == '='
}

/// How one character appears inside a single-quoted argument: a quote
/// closes the quotes, appears backslash-escaped, and reopens them; any
/// other character stands as itself.
pub open spec fn quote_chunk(c: char) -> Seq<char> {
    if c == '\'' {
        seq!['\'', '\\', '\'', '\'']
    } else {
        seq![c]
    }
}

/// The body of the single-quoted form of an argument.
pub open spec fn quote_body(s: Seq<char>) -> Seq<char>
    decreases s.len(),
{
    if s.len() == 0 {
        Seq::<char>::empty()
    } else {
        quote_chunk(s[0]) + quote_body(s.skip(1))
    }
}

/// The escaped form of an argument: itself when every character is safe,
/// otherwise the single-quoted form.
pub open spec fn shell_escape_spec(s: Seq<char>) -> Seq<char> {
    if all_safe(s) {
        s
    } else {
        seq!['\''] + quote_body(s) + seq!['\'']
    }
}

proof fn lemma_quote_body_append(x: Seq<char>, y: Seq<char>)
    ensures
        quote_body(x + y) == quote_body(x) + quote_body(y),
    decreases x.len(),
{
    if x.len() == 0 {
        assert(x + y =~= y);
        assert(quote_body(x) + quote_body(y) =~= quote_body(y));
    } else {
        lemma_quote_body_append(x.skip(1), y);
        assert((x + y).skip(1) =~= x.skip(1) + y);
        assert((x + y)[0] == x[0]);
        assert(quote_chunk(x[0]) + (quote_body(x.skip(1)) + quote_body(y)) =~= (quote_chunk(x[0])
            + quote_body(x.skip(1))) + quote_body(y));
    }
}

/// Escapes one argument for safe inclusion in a shell command line.
pub fn shell_escape(s: &str) -> (r: String)
    ensures
        r@ == shell_escape_spec(s@),
{
    let cs = chars_of(s);
    let n: usize = cs.len();
    let mut i: usize = 0;
    let mut safe = true;
    while i < n
        invariant
            i <= n,
            n == cs@.len(),
            cs@ == s@,
            safe == (forall|j: int| 0 <= j < i ==> safe_char(#[trigger] cs@[j])),
        decreases n - i,
    {
        let ghost before = safe;
        if !is_safe_char(cs[i]) {
            safe = false;
        }
        i = i + 1;
        proof {
            if safe {
                assert(forall|j: int| 0 <= j < i ==> safe_char(#[trigger] cs@[j]));
            } else {
                if before {
                    assert(!safe_char(cs@[i - 1]));
                } else {
                    let j = choose|j: int| 0 <= j < i - 1 && !safe_char(#[trigger] cs@[j]);
                    assert(!safe_char(cs@[j]));
                }
                assert(!(forall|j: int| 0 <= j < i ==> safe_char(#[trigger] cs@[j]))) by {
                    let j = choose|j: int| 0 <= j < i && !safe_char(#[trigger] cs@[j]);
                    assert(0 <= j < i && !safe_char(cs@[j]));
                }
            }
        }
    }
    if safe {
        return s.to_owned();
    }
    let mut out: String = String::new();
    push_char(&mut out, '\'');
    let mut k: usize = 0;
    proof {
        assert(quote_body(cs@.take(0)) =~= Seq::<char>::empty());
        assert(out@ =~= seq!['\''] + quote_body(cs@.take(0)));
    }
    while k < n
        invariant
            k <= n,
            n == cs@.len(),
            cs@ == s@,
            !all_safe(s@),
            out@ == seq!['\''] + quote_body(cs@.take(k as int)),
        decreases n - k,
    {
        let c = cs[k];
        if c == '\'' {
            push_char(&mut out, '\'');
            push_char(&mut out, '\\');
            push_char(&mut out, '\'');
            push_char(&mut out, '\'');
        } else {
            push_char(&mut out, c);
        }
        k = k + 1;
        proof {
            lemma_quote_body_append(cs@.take(k - 1), seq![cs@[k - 1]]);
            assert(cs@.take(k as int) =~= cs@.take(k - 1) + seq![cs@[k - 1]]);
            assert(seq![cs@[k - 1]].skip(1) =~= Seq::<char>::empty());
            assert(quote_body(Seq::<char>::empty()) =~= Seq::<char>::empty());
            assert(quote_body(seq![cs@[k - 1]]) =~= quote_chunk(cs@[k - 1]));
            assert(out@ =~= seq!['\''] + quote_body(cs@.take(k as int)));
        }
    }
    push_char(&mut out, '\'');
    proof {
        assert(cs@.take(n as int) =~= cs@);
        assert(out@ =~= seq!['\''] + quote_body(s@) + seq!['\'']);
    }
    out
}

/// One word as a POSIX shell splitter reads it, processed left to right,
/// inside or outside single quotes. Inside quotes every character but the
/// closing quote is literal. Outside, a quote opens quoting, a backslash
/// makes the next character literal, a safe character stands for itself,
/// and anything else — whitespace, an operator, an expansion — ends the
/// reading with no value. An unclosed quote also has no value.
pub open spec fn posix_word_eval(s: Seq<char>, in_quote: bool) -> Option<Seq<char>>
    decreases s.len(),
{
    if s.len() == 0 {
        if in_quote {
            None
        } else {
            Some(Seq::<char>::empty())
        }
    } else if in_quote {
        if s[0] == '\'' {
            posix_word_eval(s.skip(1), false)
        } else {
            match posix_word_eval(s.skip(1), true) {
                Some(r) => Some(seq![s[0]] + r),
                None => None,
            }
        }
    } else if s[0] == '\'' {
        posix_word_eval(s.skip(1), true)
    } else if s[0] == '\\' {
        if s.len() >= 2 {
            match posix_word_eval(s.skip(2), false) {
                Some(r) => Some(seq![s[1]] + r),
                None => None,
            }
        } else {
            None
        }
    } else if safe_char(s[0]) {
        match posix_word_eval(s.skip(1), false) {
            Some(r) => Some(seq![s[0]] + r),
            None => None,
        }
    } else {
        None
    }
}

proof fn lemma_eval_safe(s: Seq<char>)
    requires
        all_safe(s),
    ensures
        posix_word_eval(s, false) == Some(s),
    decreases s.len(),
{
    if s.len() > 0 {
        assert(safe_char(s[0]));
        assert(s[0] != '\'' && s[0] != '\\') by {
            assert(('\'' as u32) == 39 && ('\\' as u32) == 92);
        }
        assert(all_safe(s.skip(1))) by {
            assert(forall|i: int| 0 <= i < s.skip(1).len() ==> s.skip(1)[i] == s[i + 1]);
        }
        lemma_eval_safe(s.skip(1));
        assert(seq![s[0]] + s.skip(1) =~= s);
    }
}

proof fn lemma_eval_quoted_body(s: Seq<char>, rest: Seq<char>)
    ensures
        posix_word_eval(quote_body(s) + rest, true) == (match posix_word_eval(rest, true) {
            Some(r) => Some(s + r),
            None => None,
        }),
    decreases s.len(),
{
    if s.len() == 0 {
        assert(quote_body(s) + rest =~= rest);
        match posix_word_eval(rest, true) {
            Some(r) => {
                assert(s + r =~= r);
            },
            None => {},
        }
    } else {
        lemma_eval_quoted_body(s.skip(1), rest);
        let w = quote_body(s) + rest;
        if s[0] == '\'' {
            assert(quote_body(s) =~= seq!['\'', '\\', '\'', '\''] + quote_body(s.skip(1)));
            assert(w =~= seq!['\'', '\\', '\'', '\''] + (quote_body(s.skip(1)) + rest));
            let w1 = seq!['\\', '\'', '\''] + (quote_body(s.skip(1)) + rest);
            let w2 = seq!['\''] + (quote_body(s.skip(1)) + rest);
            let w3 = quote_body(s.skip(1)) + rest;
            assert(w[0] == '\'');
            assert(w.skip(1) =~= w1);
            assert(w1[0] == '\\' && w1.len() >= 2);
            assert(w1.skip(2) =~= w2);
            assert(w1[1] == '\'');
            assert(w2[0] == '\'');
            assert(w2.skip(1) =~= w3);
            match posix_word_eval(rest, true) {
                Some(r) => {
                    assert(posix_word_eval(w3, true) == Some(s.skip(1) + r));
                    assert(posix_word_eval(w2, false) == Some(s.skip(1) + r));
                    assert(posix_word_eval(w1, false) == Some(
                        seq!['\''] + (s.skip(1) + r),
                    ));
                    assert(posix_word_eval(w, true) == posix_word_eval(w1, false));
                    assert(seq!['\''] + (s.skip(1) + r) =~= s + r);
                },
                None => {
                    assert(posix_word_eval(w3, true) is None);
                    assert(posix_word_eval(w2, false) is None);
                    assert(posix_word_eval(w1, false) is None);
                },
            }
        } else {
            assert(quote_body(s) =~= seq![s[0]] + quote_body(s.skip(1)));
            assert(w =~= seq![s[0]] + (quote_body(s.skip(1)) + rest));
            assert(w[0] == s[0]);
            assert(w.skip(1) =~= quote_body(s.skip(1)) + rest);
            match posix_word_eval(rest, true) {
                Some(r) => {
                    assert(seq![s[0]] + (s.skip(1) + r) =~= s + r);
                },
                None => {},
            }
        }
    }
}

/// Re-reading an escaped argument with a POSIX shell splitter yields
/// exactly the original argument, as one word, for every argument.
pub proof fn lemma_shell_escape_round_trip(s: Seq<char>)
    ensures
        posix_word_eval(shell_escape_spec(s), false) == Some(s),
{
    if all_safe(s) {
        lemma_eval_safe(s);
    } else {
        let w = seq!['\''] + quote_body(s) + seq!['\''];
        assert(w[0] == '\'');
        assert(w.skip(1) =~= quote_body(s) + seq!['\'']);
        lemma_eval_quoted_body(s, seq!['\'']);
        let tailr = seq!['\''];
        assert(tailr[0] == '\'');
        assert(tailr.skip(1) =~= Seq::<char>::empty());
        assert(posix_word_eval(Seq::<char>::empty(), false) == Some(Seq::<char>::empty()));
        assert(posix_word_eval(tailr, true) == Some(Seq::<char>::empty()));
        assert(s + Seq::<char>::empty() =~= s);
    }
}

/// The host paths that the wrapper passes through into the container,
/// already resolved outside the library: the agent binary and the `which`
/// result behind it, the dynamic linker when present, and the known agent
/// configuration directories under the user's home.
pub struct MountPlan {
    /// The canonical path of the command's binary, when it resolves.
    pub binary_path: Option<String>,
    /// The path `which` reported, possibly a symlink to the binary.
    pub which_path: Option<String>,
    /// The dynamic linker's path, when it exists on the host.
    pub ld_linker: Option<String>,
    /// The user's home directory.
    pub home_dir: Option<String>,
    /// The first known agent configuration directory, when it exists.
    pub agent_config_dir: Option<String>,
    /// The second known agent configuration directory, when it exists.
    pub extra_config_dir: Option<String>,
}

impl MountPlan {
    /// A plan with nothing resolved: no passthrough mounts at all.
    pub fn empty() -> (r: MountPlan)
        ensures
            r.binary_path is None,
            r.which_path is None,
            r.ld_linker is None,
            r.home_dir is None,
            r.agent_config_dir is None,
            r.extra_config_dir is None,
    {
        MountPlan {
            binary_path: None,
            which_path: None,
            ld_linker: None,
            home_dir: None,
            agent_config_dir: None,
            extra_config_dir: None,
        }
    }
}

/// A read-only bind of a host path onto itself.
pub open spec fn self_mount(p: Seq<char>) -> Seq<char> {
    p + ":"@ + p + ":ro"@
}

/// The fixed head of the container invocation: ephemeral, named after the
/// session, on the configured network, with privileges dropped, a
/// read-only root, a bounded tmpfs, and the configured resource caps.
pub open spec fn base_args(config: SandboxConfig, session: Seq<char>) -> Seq<Seq<char>> {
    seq![
        "run"@,
        "--rm"@,
        "--name"@,
        "omar-sandbox-"@ + session,
        "--network"@,
        config.network@,
        "--security-opt"@,
        "no-new-privileges"@,
        "--cap-drop"@,
        "ALL"@,
        "--read-only"@,
        "--tmpfs"@,
        "/tmp:rw,noexec,size=512m"@,
        "--memory"@,
        config.limits.memory@,
        "--cpus"@,
        config.limits.cpus@,
        "--pids-limit"@,
        dec_spec(config.limits.pids_limit as int),
    ]
}

/// The workspace mount and working directory, when a workdir is given.
pub open spec fn workdir_args(dir: Option<Seq<char>>, access: Seq<char>) -> Seq<Seq<char>> {
    match dir {
        Some(d) => seq!["-v"@, d + ":/workspace:"@ + access, "-w"@, "/workspace"@],
        None => Seq::<Seq<char>>::empty(),
    }
}

/// The best-effort passthrough of the agent binary: the canonical binary,
/// the differing `which` path when there is one, and the dynamic linker.
pub open spec fn binary_args(plan: MountPlan) -> Seq<Seq<char>> {
    match plan.binary_path {
        Some(bp) => seq!["-v"@, self_mount(bp@)] + (match plan.which_path {
            Some(wp) => if wp@ != bp@ {
                seq!["-v"@, self_mount(wp@)]
            } else {
                Seq::<Seq<char>>::empty()
            },
            None => Seq::<Seq<char>>::empty(),
        }) + (match plan.ld_linker {
            Some(ld) => seq!["-v"@, self_mount(ld@)],
            None => Seq::<Seq<char>>::empty(),
        }),
        None => Seq::<Seq<char>>::empty(),
    }
}

/// The read-only passthrough of known agent configuration directories,
/// with `HOME` pointed at the user's home when the first one is mounted.
pub open spec fn config_dir_args(plan: MountPlan) -> Seq<Seq<char>> {
    (match (plan.home_dir, plan.agent_config_dir) {
        (Some(h), Some(c)) => seq!["-v"@, self_mount(c@), "-e"@, "HOME="@ + h@],
        _ => Seq::<Seq<char>>::empty(),
    }) + (match plan.extra_config_dir {
        Some(o) => seq!["-v"@, self_mount(o@)],
        None => Seq::<Seq<char>>::empty(),
    })
}

/// One configured bind mount: taken as given when it already names a
/// target, otherwise mounted read-only at its own path.
pub open spec fn bind_mount_arg(m: Seq<char>) -> Seq<char> {
    if contains_seq(m, ":"@) {
        m
    } else {
        self_mount(m)
    }
}

/// The flag-and-spec pairs for the configured bind mounts, in order.
pub open spec fn bind_mount_args(ms: Seq<Seq<char>>) -> Seq<Seq<char>>
    decreases ms.len(),
{
    if ms.len() == 0 {
        Seq::<Seq<char>>::empty()
    } else {
        bind_mount_args(ms.drop_last()) + seq!["-v"@, bind_mount_arg(ms.last())]
    }
}

/// The full argument list of the container invocation.
pub open spec fn spec_docker_args(
    config: SandboxConfig,
    session: Seq<char>,
    command: Seq<char>,
    workdir: Option<Seq<char>>,
    plan: MountPlan,
) -> Seq<Seq<char>> {
    base_args(config, session) + workdir_args(workdir, config.filesystem.workspace_access@)
        + binary_args(plan) + config_dir_args(plan) + bind_mount_args(
        config.filesystem.bind_mounts.deep_view(),
    ) + seq!["-it"@, config.image@, "sh"@, "-c"@, command]
}

/// The containerised sandbox provider: wraps agent commands in a hardened
/// container-runtime invocation. The container CLI itself runs outside
/// the library; this type owns the policy that builds the invocation.
pub struct DockerProvider {
    pub config: SandboxConfig,
}

impl DockerProvider {
    /// A provider applying the given configuration.
    pub fn new(config: SandboxConfig) -> (r: DockerProvider)
        ensures
            r.config == config,
    {
        DockerProvider { config }
    }

    /// Builds the argument list for one sandboxed session: the hardened
    /// base, the workspace mount, the resolved passthrough mounts, the
    /// configured binds, and the original command under `sh -c`.
    pub fn docker_args(
        &self,
        session_name: &str,
        command: &str,
        workdir: Option<&str>,
        mounts: &MountPlan,
    ) -> (args: Vec<String>)
        ensures
            args.deep_view() == spec_docker_args(
                self.config,
                session_name@,
                command@,
                match workdir {
                    Some(d) => Some(d@),
                    None => None,
                },
                *mounts,
            ),
    {
        let ghost wd: Option<Seq<char>> = match workdir {
            Some(d) => Some(d@),
            None => None,
        };
        let mut args: Vec<String> = Vec::new();
        args.push("run".to_owned());
        args.push("--rm".to_owned());
        args.push("--name".to_owned());
        let mut cname = "omar-sandbox-".to_owned();
        cname.append(session_name);
        args.push(cname);
        args.push("--network".to_owned());
        args.push(self.config.network.clone());
        args.push("--security-opt".to_owned());
        args.push("no-new-privileges".to_owned());
        args.push("--cap-drop".to_owned());
        args.push("ALL".to_owned());
        args.push("--read-only".to_owned());
        args.push("--tmpfs".to_owned());
        args.push("/tmp:rw,noexec,size=512m".to_owned());
        args.push("--memory".to_owned());
        args.push(self.config.limits.memory.clone());
        args.push("--cpus".to_owned());
        args.push(self.config.limits.cpus.clone());
        args.push("--pids-limit".to_owned());
        args.push(u64_to_string(self.config.limits.pids_limit as u64));
        proof {
            assert(args.deep_view() =~= base_args(self.config, session_name@));
        }
        let ghost done = base_args(self.config, session_name@);
        match workdir {
            Some(dir) => {
                args.push("-v".to_owned());
                let mut warg = dir.to_owned();
                warg.append(":/workspace:");
                warg.append(self.config.filesystem.workspace_access.as_str());
                args.push(warg);
                args.push("-w".to_owned());
                args.push("/workspace".to_owned());
            },
            None => {},
        }
        proof {
            assert(args.deep_view() =~= done + workdir_args(
                wd,
                self.config.filesystem.workspace_access@,
            ));
        }
        let ghost done = done + workdir_args(wd, self.config.filesystem.workspace_access@);
        match &mounts.binary_path {
            Some(bp) => {
                args.push("-v".to_owned());
                args.push(self_mount_arg(bp.as_str()));
                match &mounts.which_path {
                    Some(wp) => {
                        if !crate::text::str_eq(wp.as_str(), bp.as_str()) {
                            args.push("-v".to_owned());
                            args.push(self_mount_arg(wp.as_str()));
                        }
                    },
                    None => {},
                }
                match &mounts.ld_linker {
                    Some(ld) => {
                        args.push("-v".to_owned());
                        args.push(self_mount_arg(ld.as_str()));
                    },
                    None => {},
                }
            },
            None => {},
        }
        proof {
            assert(args.deep_view() =~= done + binary_args(*mounts));
        }
        let ghost done = done + binary_args(*mounts);
        match (&mounts.home_dir, &mounts.agent_config_dir) {
            (Some(h), Some(c)) => {
                args.push("-v".to_owned());
                args.push(self_mount_arg(c.as_str()));
                args.push("-e".to_owned());
                let mut home_arg = "HOME=".to_owned();
                home_arg.append(h.as_str());
                args.push(home_arg);
            },
            _ => {},
        }
        match &mounts.extra_config_dir {
            Some(o) => {
                args.push("-v".to_owned());
                args.push(self_mount_arg(o.as_str()));
            },
            None => {},
        }
        proof {
            assert(args.deep_view() =~= done + config_dir_args(*mounts));
        }
        let ghost done = done + config_dir_args(*mounts);
        let ghost binds = self.config.filesystem.bind_mounts.deep_view();
        let mut b: usize = 0;
        proof {
            assert(bind_mount_args(binds.take(0)).len() == 0);
            assert(args.deep_view() =~= done + bind_mount_args(binds.take(0)));
        }
        while b < self.config.filesystem.bind_mounts.len()
            invariant
                b <= self.config.filesystem.bind_mounts@.len(),
                binds == self.config.filesystem.bind_mounts.deep_view(),
                binds.len() == self.config.filesystem.bind_mounts@.len(),
                args.deep_view() == done + bind_mount_args(binds.take(b as int)),
            decreases self.config.filesystem.bind_mounts@.len() - b,
        {
            let ghost before = args.deep_view();
            args.push("-v".to_owned());
            let mount = &self.config.filesystem.bind_mounts[b];
            if str_contains(mount.as_str(), ":") {
                args.push(mount.clone());
            } else {
                args.push(self_mount_arg(mount.as_str()));
            }
            b = b + 1;
            proof {
                reveal_strlit(":");
                assert(binds[b - 1] == self.config.filesystem.bind_mounts@[b - 1]@);
                assert(binds.take(b as int).drop_last() =~= binds.take(b - 1));
                assert(binds.take(b as int).last() == binds[b - 1]);
                assert(args.deep_view() =~= before + seq!["-v"@, bind_mount_arg(binds[b - 1])]);
                assert(args.deep_view() =~= done + bind_mount_args(binds.take(b as int)));
            }
        }
        proof {
            assert(binds.take(binds.len() as int) =~= binds);
        }
        args.push("-it".to_owned());
        args.push(self.config.image.clone());
        args.push("sh".to_owned());
        args.push("-c".to_owned());
        args.push(command.to_owned());
        proof {
            assert(args.deep_view() =~= spec_docker_args(
                self.config,
                session_name@,
                command@,
                wd,
                *mounts,
            ));
        }
        args
    }

    /// The single shell command that launches the sandboxed session: the
    /// container CLI followed by every argument in escaped form.
    pub fn wrap_command(
        &self,
        session_name: &str,
        command: &str,
        workdir: Option<&str>,
        mounts: &MountPlan,
    ) -> (r: String)
        ensures
            r@ == join_spec(
                seq!["docker"@] + spec_docker_args(
                    self.config,
                    session_name@,
                    command@,
                    match workdir {
                        Some(d) => Some(d@),
                        None => None,
                    },
                    *mounts,
                ).map_values(|a: Seq<char>| shell_escape_spec(a)),
                " "@,
            ),
    {
        let args = self.docker_args(session_name, command, workdir, mounts);
        let ghost av = args.deep_view();
        let mut parts: Vec<String> = Vec::new();
        parts.push("docker".to_owned());
        let ghost escaped = av.map_values(|a: Seq<char>| shell_escape_spec(a));
        let mut i: usize = 0;
        proof {
            assert(parts.deep_view() =~= seq!["docker"@] + escaped.take(0));
        }
        while i < args.len()
            invariant
                i <= args@.len(),
                av == args.deep_view(),
                av.len() == args@.len(),
                escaped == av.map_values(|a: Seq<char>| shell_escape_spec(a)),
                escaped.len() == av.len(),
                parts.deep_view() == seq!["docker"@] + escaped.take(i as int),
            decreases args@.len() - i,
        {
            let ghost before = parts.deep_view();
            let e = shell_escape(args[i].as_str());
            parts.push(e);
            i = i + 1;
            proof {
                assert(av[i - 1] == args@[i - 1]@);
                assert(escaped[i - 1] == shell_escape_spec(av[i - 1]));
                assert(escaped.take(i as int) =~= escaped.take(i - 1).push(escaped[i - 1]));
                assert(parts.deep_view() =~= before.push(escaped[i - 1]));
            }
        }
        proof {
            assert(escaped.take(escaped.len() as int) =~= escaped);
        }
        join_with(&parts, " ")
    }
}

fn self_mount_arg(p: &str) -> (r: String)
    ensures
        r@ == self_mount(p@),
{
    let mut r = p.to_owned();
    r.append(":");
    r.append(p);
    r.append(":ro");
    r
}

/// An error reported by a sandbox provider.
pub struct SandboxError {
    pub message: String,
}

/// What a sandbox provider offers the supervisor: command wrapping,
/// cleanup of one or all sandboxes, one-time setup, and whether it is
/// active at all.
pub trait SandboxProvider {
    /// Whether this provider sandboxes commands, as a specification
    /// value.
    spec fn spec_enabled(&self) -> bool;

    /// Wraps a command for execution under this provider's policy.
    fn wrap_command(&self, session_name: &str, command: &str, workdir: Option<&str>) -> String;

    /// Releases whatever the provider holds for one session.
    fn cleanup(&self, session_name: &str) -> Result<(), SandboxError>;

    /// Releases everything the provider holds, for every session.
    fn cleanup_all(&self) -> Result<(), SandboxError>;

    /// Prepares the provider for use.
    fn setup(&self) -> Result<(), SandboxError>;

    /// Whether sandboxing is active.
    fn is_enabled(&self) -> (r: bool)
        ensures
            r == self.spec_enabled(),
    ;
}

/// The passthrough provider used when sandboxing is off: commands run
/// unchanged and there is nothing to set up or clean.
pub struct NoopProvider;

impl SandboxProvider for NoopProvider {
    open spec fn spec_enabled(&self) -> bool {
        false
    }

    fn wrap_command(&self, session_name: &str, command: &str, workdir: Option<&str>) -> (r:
        String)
        ensures
            r@ == command@,
    {
        command.to_owned()
    }

    fn cleanup(&self, session_name: &str) -> (r: Result<(), SandboxError>)
        ensures
            r is Ok,
    {
        Ok(())
    }

    fn cleanup_all(&self) -> (r: Result<(), SandboxError>)
        ensures
            r is Ok,
    {
        Ok(())
    }

    fn setup(&self) -> (r: Result<(), SandboxError>)
        ensures
            r is Ok,
    {
        Ok(())
    }

    fn is_enabled(&self) -> (r: bool)
        ensures
            r == self.spec_enabled(),
    {
        false
    }
}

} // verus!
