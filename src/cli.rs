//! The command-line options of the interactive shell: its flags and the path
//! of the store it opens.

use vstd::prelude::*;
use vstd::string::StrSliceExecFns;
use vstd::string::StringExecFns;
use crate::json::text_eq;

verus! {

/// A flag of the shell.
#[derive(Debug, Clone, Copy, PartialEq, Eq, Structural)]
pub enum CliFlags {
    /// Print how long each command took.
    Timing,
}

/// The flag that an argument names, if any.
pub open spec fn flag_named(s: Seq<char>) -> Option<CliFlags> {
    if s == "--timing"@ || s == "-t"@ {
        Some(CliFlags::Timing)
    } else {
        None
    }
}

/// The flags among the arguments, in order.
pub open spec fn flags_in(args: Seq<Seq<char>>) -> Seq<CliFlags>
    decreases args.len(),
{
    if args.len() == 0 {
        Seq::empty()
    } else {
        let rest = flags_in(args.drop_last());
        match flag_named(args.last()) {
            Some(f) => rest.push(f),
            None => rest,
        }
    }
}

/// The arguments that are not flags, in order.
pub open spec fn plain_args(args: Seq<Seq<char>>) -> Seq<Seq<char>>
    decreases args.len(),
{
    if args.len() == 0 {
        Seq::empty()
    } else {
        let rest = plain_args(args.drop_last());
        match flag_named(args.last()) {
            Some(_) => rest,
            None => rest.push(args.last()),
        }
    }
}

/// The default path of the store.
pub open spec fn default_db_path() -> Seq<char> {
    "db.nosqlite"@
}

/// The extension of store files.
pub open spec fn store_extension() -> Seq<char> {
    ".nosqlite"@
}

/// Whether `s` ends with `suffix`.
pub open spec fn ends_with(s: Seq<char>, suffix: Seq<char>) -> bool {
    s.len() >= suffix.len() && s.subrange(s.len() - suffix.len(), s.len() as int) == suffix
}

/// The path of the store for a raw path: the path itself when it has the
/// store extension, else the path with the extension added.
pub open spec fn store_path(raw: Seq<char>) -> Seq<char> {
    if ends_with(raw, store_extension()) {
        raw
    } else {
        raw + store_extension()
    }
}

impl CliFlags {
    /// The flag that an argument names: `--timing` or `-t`.
    pub fn from_arg(s: &str) -> (r: Option<CliFlags>)
        ensures
            r == flag_named(s@),
    {
        if text_eq(s, "--timing") || text_eq(s, "-t") {
            Some(CliFlags::Timing)
        } else {
            None
        }
    }
}

/// Splits the arguments into the flags and the other arguments, each in
/// order.
pub fn split_flags(args: &Vec<String>) -> (r: (Vec<CliFlags>, Vec<String>))
    ensures
        r.0@ == flags_in(args@.map_values(|s: String| s@)),
        r.1@.map_values(|s: String| s@) == plain_args(args@.map_values(|s: String| s@)),
{
    let ghost views = args@.map_values(|s: String| s@);
    let mut flags: Vec<CliFlags> = Vec::new();
    let mut rest: Vec<String> = Vec::new();
    let mut i: usize = 0;
    while i < args.len()
        invariant
            i <= args@.len(),
            views == args@.map_values(|s: String| s@),
            flags@ == flags_in(views.subrange(0, i as int)),
            rest@.map_values(|s: String| s@) == plain_args(views.subrange(0, i as int)),
        decreases args@.len() - i,
    {
        let ghost before = rest@;
        proof {
            assert(views.subrange(0, i + 1).drop_last() =~= views.subrange(0, i as int));
            assert(views.subrange(0, i + 1).last() == args@[i as int]@);
        }
        match CliFlags::from_arg(args[i].as_str()) {
            Some(f) => {
                flags.push(f);
            },
            None => {
                rest.push(args[i].clone());
                proof {
                    assert(rest@.map_values(|s: String| s@) =~= before.map_values(|s: String| s@).push(args@[i as int]@));
                }
            },
        }
        i = i + 1;
    }
    proof {
        assert(views.subrange(0, args@.len() as int) =~= views);
    }
    (flags, rest)
}

/// Whether `s` ends with `suffix`.
fn text_ends_with(s: &str, suffix: &str) -> (r: bool)
    ensures
        r == ends_with(s@, suffix@),
{
    let n = s.unicode_len();
    let m = suffix.unicode_len();
    if n < m {
        return false;
    }
    let mut i: usize = 0;
    while i < m
        invariant
            n == s@.len(),
            m == suffix@.len(),
            m <= n,
            i <= m,
            forall|j: int| 0 <= j < i ==> s@[n - m + j] == suffix@[j],
        decreases m - i,
    {
        if s.get_char(n - m + i) != suffix.get_char(i) {
            proof {
                assert(s@.subrange(n - m, n as int)[i as int] != suffix@[i as int]);
            }
            return false;
        }
        i = i + 1;
    }
    proof {
        assert(s@.subrange(n - m, n as int) =~= suffix@);
    }
    true
}

/// The path of the store to open: the first argument, or `db.nosqlite` when
/// there is none, with the `.nosqlite` extension added if it lacks it.
pub fn get_db_path(args: Vec<String>) -> (r: String)
    ensures
        args@.len() == 0 ==> r@ == default_db_path(),
        args@.len() > 0 ==> r@ == store_path(args@[0]@),
{
    let raw: String = if args.len() > 0 {
        args[0].clone()
    } else {
        "db.nosqlite".to_string()
    };
    proof {
        reveal_strlit("db.nosqlite");
        reveal_strlit(".nosqlite");
        assert("db.nosqlite"@.subrange(2, 11) =~= ".nosqlite"@);
    }
    if text_ends_with(raw.as_str(), ".nosqlite") {
        raw
    } else {
        raw.concat(".nosqlite")
    }
}

} // verus!
