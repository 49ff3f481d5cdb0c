//! The names of the files of modules.

use crate::lexer::{chars_of, push_char};
use vstd::prelude::*;
use vstd::string::StringExecFns;

verus! {

/// The path `path` of a module with `/` in place of each `:`.
pub open spec fn with_slashes(path: Seq<char>) -> Seq<char> {
    Seq::new(
        path.len(),
        |i: int|
            if path[i] == ':' {
                '/'
            } else {
                path[i]
            },
    )
}

/// The file of the module `path`, from the directory that modules are
/// looked up in: `lib:math` is in `lib/math.mosa`.
pub fn module_file(path: &String) -> (r: String)
    ensures
        r@ == with_slashes(path@) + ".mosa"@,
{
    let chars = chars_of(path.as_str());
    let mut r = String::new();
    let mut i: usize = 0;
    while i < chars.len()
        invariant
            i <= chars@.len(),
            chars@ == path@,
            r@ == with_slashes(path@).take(i as int),
        decreases chars@.len() - i,
    {
        let c = if chars[i] == ':' {
            '/'
        } else {
            chars[i]
        };
        push_char(&mut r, c);
        assert(r@ =~= with_slashes(path@).take(i + 1));
        i = i + 1;
    }
    assert(with_slashes(path@).take(i as int) =~= with_slashes(path@));
    r.append(".mosa");
    r
}

/// The place of the last `/` in `s`; -1 where it has none.
pub open spec fn last_slash(s: Seq<char>) -> int
    decreases s.len(),
{
    if s.len() == 0 {
        -1
    } else if s.last() == '/' {
        s.len() - 1
    } else {
        last_slash(s.drop_last())
    }
}

/// The text of `s` before its last `/`; nothing where it has none.
pub open spec fn directory_of(s: Seq<char>) -> Seq<char> {
    if last_slash(s) < 0 {
        Seq::empty()
    } else {
        s.subrange(0, last_slash(s))
    }
}

proof fn lemma_last_slash(s: Seq<char>)
    ensures
        -1 <= last_slash(s) < s.len(),
        last_slash(s) >= 0 ==> s[last_slash(s)] == '/',
        forall|j: int| last_slash(s) < j < s.len() ==> s[j] != '/',
    decreases s.len(),
{
    if s.len() > 0 && s.last() != '/' {
        lemma_last_slash(s.drop_last());
        assert forall|j: int| last_slash(s) < j < s.len() implies s[j] != '/' by {
            if j < s.len() - 1 {
                assert(s.drop_last()[j] == s[j]);
            }
        }
    }
}

proof fn lemma_last_slash_is(s: Seq<char>, at: int)
    requires
        -1 <= at < s.len(),
        at >= 0 ==> s[at] == '/',
        forall|j: int| at < j < s.len() ==> s[j] != '/',
    ensures
        last_slash(s) == at,
{
    lemma_last_slash(s);
}

/// The directory of the module `path`, from the directory that modules are
/// looked up in, with a `/` at its end: `lib:std:io` is in `lib/std/`, and
/// `math` is in `/`.
pub fn module_directory(path: &String) -> (r: String)
    ensures
        r@ == directory_of(with_slashes(path@)) + "/"@,
{
    let chars = chars_of(path.as_str());
    let ghost slashed = with_slashes(path@);
    let mut last: usize = chars.len();
    let mut found = false;
    let mut i: usize = chars.len();
    while i > 0 && !found
        invariant
            i <= chars@.len(),
            chars@ == path@,
            slashed == with_slashes(path@),
            forall|j: int| i <= j < chars@.len() && !(found && j == last) ==> slashed[j] != '/',
            found ==> last == i && last < chars@.len() && slashed[last as int] == '/',
        decreases i + (if found { 0int } else { 1int }),
    {
        if chars[i - 1] == ':' || chars[i - 1] == '/' {
            found = true;
            last = i - 1;
        }
        i = i - 1;
    }
    let mut r = String::new();
    let end: usize = if found {
        last
    } else {
        0
    };
    proof {
        lemma_last_slash_is(
            slashed,
            if found {
                last as int
            } else {
                -1
            },
        );
    }
    let mut k: usize = 0;
    while k < end
        invariant
            k <= end <= chars@.len(),
            chars@ == path@,
            r@ == with_slashes(path@).take(k as int),
        decreases end - k,
    {
        let c = if chars[k] == ':' {
            '/'
        } else {
            chars[k]
        };
        push_char(&mut r, c);
        assert(r@ =~= with_slashes(path@).take(k + 1));
        k = k + 1;
    }
    assert(r@ =~= directory_of(slashed));
    r.append("/");
    r
}

} // verus!
