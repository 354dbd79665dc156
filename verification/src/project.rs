//! A project from the outside: what a new one holds, what its parts are called, and which
//! build is asked for.

use vstd::prelude::*;

use crate::emit::Profile;
use crate::text::{
    begins, cat3, cat5, chars, cut_once, is_digit, is_lower, same, slice, split_once, texts,
};

verus! {

pub open spec fn is_namespace_char(c: char) -> bool {
    is_lower(c) || is_digit(c) || c == '_' || c == '-'
}

/// Whether a name can be a namespace. A datapack path may not have a capital in it, and
/// Minecraft silently does not load one that has.
pub open spec fn can_be_namespace(name: Seq<char>) -> bool {
    name.len() > 0 && forall|i: int| 0 <= i < name.len() ==> is_namespace_char(#[trigger] name[i])
}

/// Whether `s` ends with `e`.
pub open spec fn ends(s: Seq<char>, e: Seq<char>) -> bool {
    e.len() <= s.len() && s.skip(s.len() - e.len()) == e
}

/// `data/<ns>/function/a/b.mcfunction` as `<ns>:a/b`.
pub open spec fn function_in(path: Seq<char>) -> Option<Seq<char>> {
    if !begins(path, "data/"@) {
        None
    } else {
        match split_once(path.skip(5), '/') {
            None => None,
            Some((namespace, rest)) => if !begins(rest, "function/"@) {
                None
            } else {
                let name = rest.skip(9);
                if ends(name, ".mcfunction"@) {
                    Some(namespace + ":"@ + name.take(name.len() - 11))
                } else {
                    None
                }
            },
        }
    }
}

/// What `minewell.toml` of a new project holds.
pub open spec fn manifest_of(name: Seq<char>) -> Seq<char> {
    "[package]\nname = \""@ + name + "\"\n"@
}

/// What `src/lib.mwl` of a new project holds.
pub open spec fn source_of(name: Seq<char>) -> Seq<char> {
    "//! "@ + name + "\n\n#[load]\nfn setup() {\n    raw!(\"say "@ + name
        + " is loaded\");\n}\n\n#[test]\nfn arithmetic_holds() {\n    let a = 2 + 3;\n    debug_assert!(a == 5, \"two and three make five\");\n}\n"@
}

/// The build the flags ask for.
pub fn profile_of(flags: &Vec<String>) -> (r: Profile)
    ensures
        r == if texts(flags@).contains("--release"@) {
            Profile::Release
        } else {
            Profile::Debug
        },
{
    let mut i: usize = 0;
    while i < flags.len()
        invariant
            i <= flags@.len(),
            forall|k: int| 0 <= k < i ==> flags@[k]@ != "--release"@,
        decreases flags.len() - i,
    {
        if same(flags[i].as_str(), "--release") {
            proof {
                assert(texts(flags@)[i as int] == "--release"@);
            }
            return Profile::Release;
        }
        i += 1;
    }
    proof {
        assert(forall|k: int| 0 <= k < flags@.len() ==> texts(flags@)[k] == flags@[k]@);
    }
    Profile::Debug
}

/// Whether a name can be a namespace.
pub fn is_namespace(name: &str) -> (r: bool)
    ensures
        r == can_be_namespace(name@),
{
    let v = chars(name);
    if v.len() == 0 {
        return false;
    }
    let mut i: usize = 0;
    while i < v.len()
        invariant
            i <= v@.len(),
            v@ == name@,
            forall|k: int| 0 <= k < i ==> is_namespace_char(#[trigger] name@[k]),
        decreases v.len() - i,
    {
        let c = v[i];
        if !(('a' <= c && c <= 'z') || ('0' <= c && c <= '9') || c == '_' || c == '-') {
            proof {
                assert(!is_namespace_char(name@[i as int]));
            }
            return false;
        }
        i += 1;
    }
    true
}

pub fn new_manifest(name: &str) -> (r: String)
    ensures
        r@ == manifest_of(name@),
{
    cat3("[package]\nname = \"", name, "\"\n")
}

pub fn new_source(name: &str) -> (r: String)
    ensures
        r@ == source_of(name@),
{
    cat5(
        "//! ",
        name,
        "\n\n#[load]\nfn setup() {\n    raw!(\"say ",
        name,
        " is loaded\");\n}\n\n#[test]\nfn arithmetic_holds() {\n    let a = 2 + 3;\n    debug_assert!(a == 5, \"two and three make five\");\n}\n",
    )
}

/// What is left of `s` after the prefix, if it has it.
fn after(s: &str, prefix: &str) -> (r: Option<String>)
    ensures
        match r {
            Some(rest) => begins(s@, prefix@) && rest@ == s@.skip(prefix@.len() as int),
            None => !begins(s@, prefix@),
        },
{
    let v = chars(s);
    let p = chars(prefix);
    let n: usize = p.len();
    if v.len() < n {
        return None;
    }
    let head = slice(&v, 0, n);
    proof {
        assert(head@ =~= s@.take(n as int));
    }
    if !same(head.as_str(), prefix) {
        return None;
    }
    let rest = slice(&v, n, v.len());
    proof {
        assert(rest@ =~= s@.skip(n as int));
    }
    Some(rest)
}

/// What is left of `s` before the suffix, if it has it.
fn ahead_of(s: &str, suffix: &str) -> (r: Option<String>)
    ensures
        match r {
            Some(rest) => ends(s@, suffix@) && rest@ == s@.take(s@.len() - suffix@.len()),
            None => !ends(s@, suffix@),
        },
{
    let v = chars(s);
    let n: usize = chars(suffix).len();
    if v.len() < n {
        return None;
    }
    let cut: usize = v.len() - n;
    let tail = slice(&v, cut, v.len());
    proof {
        assert(tail@ =~= s@.skip(cut as int));
    }
    if !same(tail.as_str(), suffix) {
        return None;
    }
    let rest = slice(&v, 0, cut);
    proof {
        assert(rest@ =~= s@.take(cut as int));
    }
    Some(rest)
}

/// `data/<ns>/function/a/b.mcfunction` into `<ns>:a/b`.
pub fn function_id(path: &str) -> (r: Option<String>)
    ensures
        match r {
            Some(id) => function_in(path@) == Some(id@),
            None => function_in(path@) is None,
        },
{
    proof {
        reveal_strlit("data/");
        reveal_strlit("function/");
        reveal_strlit(".mcfunction");
    }
    let rest = after(path, "data/")?;
    let (namespace, rest) = cut_once(rest.as_str(), '/')?;
    let name = after(rest.as_str(), "function/")?;
    let name = ahead_of(name.as_str(), ".mcfunction")?;
    Some(cat3(namespace.as_str(), ":", name.as_str()))
}

} // verus!
