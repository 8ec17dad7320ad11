//! Session-name handling: the configured prefix, user-facing short names,
//! role classification, and generation of fresh agent names.

use vstd::prelude::*;

use crate::text::{dec_spec, str_eq, str_starts_with, strip_prefix_str, u64_to_string};

verus! {

/// The full session name an id resolves to: ids that already carry the
/// prefix (or an empty prefix) stay as they are, others get the prefix
/// prepended.
pub open spec fn resolve_spec(prefix: Seq<char>, id: Seq<char>) -> Seq<char> {
    if prefix.len() == 0 || prefix.is_prefix_of(id) {
        id
    } else {
        prefix + id
    }
}

/// The user-facing short name: the session name with the prefix stripped
/// when it is present.
pub open spec fn short_spec(prefix: Seq<char>, name: Seq<char>) -> Seq<char> {
    if prefix.is_prefix_of(name) {
        name.skip(prefix.len() as int)
    } else {
        name
    }
}

/// Resolves a user-facing id to a full session name by prepending the
/// configured prefix unless the id already starts with it.
pub fn resolve_session_name(prefix: &str, id: &str) -> (r: String)
    ensures
        r@ == resolve_spec(prefix@, id@),
{
    if prefix.is_empty() || str_starts_with(id, prefix) {
        id.to_owned()
    } else {
        let mut r = prefix.to_owned();
        r.append(id);
        r
    }
}

/// Strips the session prefix to get the user-facing short name.
pub fn display_name<'a>(prefix: &str, session_name: &'a str) -> (r: &'a str)
    ensures
        r@ == short_spec(prefix@, session_name@),
{
    strip_prefix_str(session_name, prefix)
}

/// Resolving a short name that does not carry the prefix and then
/// displaying the result returns the short name unchanged; resolving an
/// already-full name keeps it as it is.
pub proof fn lemma_resolve_display_round_trip(prefix: Seq<char>, s: Seq<char>)
    requires
        !prefix.is_prefix_of(s),
    ensures
        short_spec(prefix, resolve_spec(prefix, s)) == s,
        resolve_spec(prefix, prefix + s) == prefix + s,
{
    assert(prefix.len() > 0) by {
        if prefix.len() == 0 {
            assert(prefix =~= s.subrange(0, 0));
        }
    }
    let full = prefix + s;
    assert(prefix =~= full.subrange(0, prefix.len() as int));
    assert(full.skip(prefix.len() as int) =~= s);
}

/// Whether a session's short name marks it as a project manager.
pub open spec fn is_pm_name(prefix: Seq<char>, name: Seq<char>) -> bool {
    "pm-"@.is_prefix_of(short_spec(prefix, name))
}

/// Whether the session with this name is a project manager: its short name
/// starts with `pm-`.
pub fn is_pm_session(prefix: &str, name: &str) -> (r: bool)
    ensures
        r == is_pm_name(prefix@, name@),
{
    let short = display_name(prefix, name);
    str_starts_with(short, "pm-")
}

/// The session name formed by the prefix and a decimal counter.
pub open spec fn numbered_name(prefix: Seq<char>, k: int) -> Seq<char> {
    prefix + dec_spec(k)
}

/// Whether the collection holds a string with exactly these characters.
pub fn contains_string(v: &Vec<String>, s: &str) -> (r: bool)
    ensures
        r == v.deep_view().contains(s@),
{
    let mut j: usize = 0;
    while j < v.len()
        invariant
            j <= v@.len(),
            v.deep_view().len() == v@.len(),
            forall|l: int| 0 <= l < j ==> v.deep_view()[l] != s@,
        decreases v@.len() - j,
    {
        if str_eq(v[j].as_str(), s) {
            proof {
                assert(v.deep_view()[j as int] == s@);
            }
            return true;
        }
        j = j + 1;
    }
    proof {
        if v.deep_view().contains(s@) {
            let l = choose|l: int| 0 <= l < v.deep_view().len() && v.deep_view()[l] == s@;
            assert(v.deep_view()[l] != s@);
        }
    }
    false
}

/// Picks the lowest free numbered agent name: the first `prefix{k}` with
/// `1 <= k < 1000` that is not among the existing names; when every counter
/// is taken, falls back to the prefix followed by the given epoch seconds.
pub fn generate_agent_name(existing: &Vec<String>, prefix: &str, fallback_seconds: u64) -> (r:
    String)
    ensures
        (forall|k: int|
            1 <= k < 1000 ==> existing.deep_view().contains(#[trigger] numbered_name(prefix@, k)))
            ==> r@ == prefix@ + dec_spec(fallback_seconds as int),
        (exists|k: int|
            1 <= k < 1000 && !existing.deep_view().contains(#[trigger] numbered_name(prefix@, k)))
            ==> exists|k: int|
            {
                &&& 1 <= k < 1000
                &&& !existing.deep_view().contains(#[trigger] numbered_name(prefix@, k))
                &&& r@ == numbered_name(prefix@, k)
                &&& forall|j: int|
                    1 <= j < k ==> existing.deep_view().contains(
                        #[trigger] numbered_name(prefix@, j),
                    )
            },
{
    let mut i: u64 = 1;
    while i < 1000
        invariant
            1 <= i <= 1000,
            forall|j: int|
                1 <= j < i ==> existing.deep_view().contains(#[trigger] numbered_name(prefix@, j)),
        decreases 1000 - i,
    {
        let mut name = prefix.to_owned();
        let digits = u64_to_string(i);
        name.append(digits.as_str());
        proof {
            assert(name@ == numbered_name(prefix@, i as int));
        }
        if !contains_string(existing, name.as_str()) {
            return name;
        }
        i = i + 1;
    }
    let mut name = prefix.to_owned();
    let digits = u64_to_string(fallback_seconds);
    name.append(digits.as_str());
    name
}

} // verus!
