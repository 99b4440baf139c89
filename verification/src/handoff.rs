//! Handing the filled buffer to the next program: the path under which the
//! live descriptor is reachable, and the substitution of that path into the
//! target program's argument list.
//!
//! The image replacement itself is an operating-system edge and runs with the
//! caller. The descriptor behind the reference must stay open, and not be
//! marked close-on-exec, until the replacement has happened; the reference
//! type stands for that transferred ownership.

use vstd::prelude::*;
use vstd::string::{StrSliceExecFns, StringExecFns};
use crate::text::{dec_digits, push_char, push_decimal};

verus! {

/// A path under which the live buffer descriptor is reachable from the
/// current process. It stays valid only while the descriptor stays open; the
/// buffer behind it is consumed, not leaked, when the reference is made.
pub struct ExternalFileReference {
    pub path: String,
}

/// The in-process path of descriptor `fd`.
pub open spec fn fd_path_spec(fd: nat) -> Seq<char> {
    "/proc/self/fd/"@ + dec_digits(fd)
}

/// Resolve the buffer descriptor `fd` to the path under which the running
/// process sees it. The caller keeps the descriptor open for at least as long
/// as the reference is in use.
pub fn resolve_reference(fd: u64) -> (r: ExternalFileReference)
    ensures
        r.path@ == fd_path_spec(fd as nat),
{
    let mut path = String::from_str("/proc/self/fd/");
    push_decimal(&mut path, fd);
    ExternalFileReference { path }
}

/// `s` with every occurrence of `pat` replaced by `rep`, scanning left to
/// right without overlap, as a textual replacement does.
pub open spec fn replace_all(s: Seq<char>, pat: Seq<char>, rep: Seq<char>) -> Seq<char>
    decreases s.len(),
    when pat.len() >= 1
{
    if s.len() < pat.len() {
        s
    } else if s.subrange(0, pat.len() as int) == pat {
        rep + replace_all(s.skip(pat.len() as int), pat, rep)
    } else {
        seq![s[0]] + replace_all(s.skip(1), pat, rep)
    }
}

/// Whether `pat` occurs in `s` starting at character `i`.
fn matches_at(s: &str, pat: &str, i: usize) -> (r: bool)
    requires
        i + pat@.len() <= s@.len(),
    ensures
        r == (s@.subrange(i as int, i + pat@.len()) == pat@),
{
    let n = s.unicode_len();
    let m = pat.unicode_len();
    let mut j: usize = 0;
    while j < m
        invariant
            n == s@.len(),
            m == pat@.len(),
            i + m <= n,
            j <= m,
            forall|t: int| 0 <= t < j ==> s@[i + t] == pat@[t],
        decreases m - j,
    {
        if s.get_char(i + j) != pat.get_char(j) {
            proof {
                assert(s@.subrange(i as int, i + pat@.len())[j as int] == s@[i + j]);
            }
            return false;
        }
        j = j + 1;
    }
    proof {
        assert(s@.subrange(i as int, i + pat@.len()) =~= pat@);
    }
    true
}

/// One argument with every occurrence of the placeholder replaced.
fn replace_in_arg(arg: &str, pat: &str, rep: &str) -> (out: String)
    requires
        pat@.len() >= 1,
    ensures
        out@ == replace_all(arg@, pat@, rep@),
{
    let n = arg.unicode_len();
    let m = pat.unicode_len();
    let mut out = String::new();
    let mut i: usize = 0;
    proof {
        assert(arg@.skip(0) =~= arg@);
        assert(Seq::<char>::empty() + replace_all(arg@, pat@, rep@) =~= replace_all(
            arg@,
            pat@,
            rep@,
        ));
    }
    while i < n
        invariant
            n == arg@.len(),
            m == pat@.len(),
            m >= 1,
            i <= n,
            out@ + replace_all(arg@.skip(i as int), pat@, rep@) == replace_all(arg@, pat@, rep@),
        decreases n - i,
    {
        let ghost rest = arg@.skip(i as int);
        if m <= n - i && matches_at(arg, pat, i) {
            proof {
                assert(rest.subrange(0, m as int) =~= arg@.subrange(i as int, i + m));
                assert(rest.skip(m as int) =~= arg@.skip(i + m));
            }
            out.append(rep);
            i = i + m;
        } else {
            proof {
                if m <= rest.len() {
                    assert(rest.subrange(0, m as int) =~= arg@.subrange(i as int, i + m));
                }
                assert(seq![rest[0]] =~= Seq::<char>::empty().push(arg@[i as int]));
                assert(rest.skip(1) =~= arg@.skip(i + 1));
            }
            let c = arg.get_char(i);
            push_char(&mut out, c);
            i = i + 1;
        }
        proof {
            assert(out@ + replace_all(arg@.skip(i as int), pat@, rep@) =~= replace_all(
                arg@,
                pat@,
                rep@,
            ));
        }
    }
    proof {
        assert(arg@.skip(n as int) =~= Seq::<char>::empty());
        assert(out@ =~= replace_all(arg@, pat@, rep@));
    }
    out
}

/// A fresh argument list with every occurrence of `placeholder` inside any
/// argument replaced by `reference`; arguments without the placeholder pass
/// through unchanged.
pub fn substitute_placeholder(args: &Vec<String>, placeholder: &str, reference: &str) -> (out: Vec<
    String,
>)
    requires
        placeholder@.len() >= 1,
    ensures
        out@.len() == args@.len(),
        forall|k: int|
            0 <= k < args@.len() ==> (#[trigger] out@[k])@ == replace_all(
                args@[k]@,
                placeholder@,
                reference@,
            ),
{
    let n = args.len();
    let mut out: Vec<String> = Vec::new();
    let mut k: usize = 0;
    while k < n
        invariant
            n == args@.len(),
            k <= n,
            placeholder@.len() >= 1,
            out@.len() == k,
            forall|j: int|
                0 <= j < k ==> (#[trigger] out@[j])@ == replace_all(
                    args@[j]@,
                    placeholder@,
                    reference@,
                ),
        decreases n - k,
    {
        let replaced = replace_in_arg(args[k].as_str(), placeholder, reference);
        out.push(replaced);
        k = k + 1;
    }
    out
}

} // verus!
