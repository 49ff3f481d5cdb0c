//! The options of the command line.
//!
//! An option is one text: a first character, `S` for a text or `B` for a
//! boolean, the name, `=`, and the value: `-Smain=main.mosa`.

use crate::collections::{names_of, StrMap};
use crate::global::is_text;
use crate::lexer::{chars_of, text_of};
use vstd::prelude::*;

verus! {

/// The kind of value that an option carries.
#[derive(Clone, Copy, Debug, PartialEq, Eq, Hash, Structural)]
pub enum OptType {
    STRING,
    BOOL,
    UNKNOWN,
}

/// The value of an option.
#[derive(Debug, PartialEq, Eq, Hash)]
pub enum OptValue {
    String(String),
    BOOL(bool),
    UNKNOWN,
}

/// The value of an option, a text by its characters.
pub enum OptView {
    Text(Seq<char>),
    Bool(bool),
    Unknown,
}

impl View for OptValue {
    type V = OptView;

    open spec fn view(&self) -> OptView {
        match self {
            OptValue::String(s) => OptView::Text(s@),
            OptValue::BOOL(b) => OptView::Bool(*b),
            OptValue::UNKNOWN => OptView::Unknown,
        }
    }
}

/// What `str::trim` leaves of the text `s`.
pub uninterp spec fn trimmed(s: Seq<char>) -> Seq<char>;

/// `str::trim`: the text without the white space at its two ends.
#[verifier::external_body]
fn trim(s: &String) -> (r: String)
    ensures
        r@ == trimmed(s@),
{
    s.trim().to_owned()
}

/// `e` is the place of the first `=` in `s`.
pub open spec fn first_equals(s: Seq<char>, e: int) -> bool {
    &&& 0 <= e < s.len()
    &&& s[e] == '='
    &&& forall|j: int| 0 <= j < e ==> s[j] != '='
}

/// The place of the first `=` in `s`, where it has one.
pub open spec fn equals_of(s: Seq<char>) -> int {
    choose|e: int| first_equals(s, e)
}

/// The name of the option `s`: what stands between its kind and its `=`.
pub open spec fn name_of(s: Seq<char>) -> Seq<char> {
    s.subrange(2, equals_of(s))
}

/// The text after the `=` of the option `s`.
pub open spec fn text_after(s: Seq<char>) -> Seq<char> {
    s.subrange(equals_of(s) + 1, s.len() as int)
}

/// Whether `s` is an option: a first character of one byte, `S` or `B`,
/// and an `=` somewhere after them; the value of a boolean spells `true`
/// or `false`, with white space around it or not.
pub open spec fn is_option(s: Seq<char>) -> bool {
    &&& s.len() >= 2
    &&& (s[0] as u32) < 128
    &&& (s[1] == 'S' || s[1] == 'B')
    &&& exists|e: int| first_equals(s, e)
    &&& equals_of(s) >= 2
    &&& s[1] == 'B' ==> trimmed(text_after(s)) == "true"@ || trimmed(text_after(s)) == "false"@
}

/// The value of the option `s`.
pub open spec fn value_of(s: Seq<char>) -> OptView {
    if s[1] == 'S' {
        OptView::Text(text_after(s))
    } else {
        OptView::Bool(trimmed(text_after(s)) == "true"@)
    }
}

/// What the options `opts` say: each name with the value of the last
/// option of that name.
pub open spec fn options_of(opts: Seq<Seq<char>>) -> Map<Seq<char>, OptView>
    decreases opts.len(),
{
    if opts.len() == 0 {
        Map::empty()
    } else {
        options_of(opts.drop_last()).insert(name_of(opts.last()), value_of(opts.last()))
    }
}

/// The values of `m`, each by its view.
pub open spec fn views_of(m: Map<Seq<char>, OptValue>) -> Map<Seq<char>, OptView> {
    m.map_values(|v: OptValue| v@)
}

proof fn lemma_one_first_equals(s: Seq<char>, e: int)
    requires
        first_equals(s, e),
    ensures
        equals_of(s) == e,
{
    let c = equals_of(s);
    assert(first_equals(s, c));
    if c < e {
        assert(s[c] != '=');
    }
    if e < c {
        assert(s[e] != '=');
    }
}

/// The place of the first `=` among `chars`.
fn find_equals(chars: &Vec<char>) -> (r: Option<usize>)
    ensures
        match r {
            Some(e) => first_equals(chars@, e as int) && equals_of(chars@) == e,
            None => forall|e: int| !first_equals(chars@, e),
        },
{
    let mut i: usize = 0;
    while i < chars.len()
        invariant
            i <= chars@.len(),
            forall|j: int| 0 <= j < i ==> chars@[j] != '=',
        decreases chars@.len() - i,
    {
        if chars[i] == '=' {
            proof {
                lemma_one_first_equals(chars@, i as int);
            }
            return Some(i);
        }
        i = i + 1;
    }
    None
}

/// The name and the value of the option `opt`; none where it is no option.
pub fn parse_option(opt: &String) -> (r: Option<(String, OptValue)>)
    ensures
        r is Some <==> is_option(opt@),
        r matches Some(p) ==> p.0@ == name_of(opt@) && p.1@ == value_of(opt@),
{
    let chars = chars_of(opt.as_str());
    if chars.len() < 2 {
        return None;
    }
    let first: u32 = chars[0] as u32;
    if first >= 128 {
        return None;
    }
    let kind = chars[1];
    if kind != 'S' && kind != 'B' {
        return None;
    }
    let e = match find_equals(&chars) {
        Some(e) => e,
        None => { return None; },
    };
    if e < 2 {
        return None;
    }
    let name = text_of(&chars, 2, e);
    let text = text_of(&chars, e + 1, chars.len());
    if kind == 'S' {
        Some((name, OptValue::String(text)))
    } else {
        let word = trim(&text);
        if is_text(&word, "true") {
            Some((name, OptValue::BOOL(true)))
        } else if is_text(&word, "false") {
            proof {
                reveal_strlit("true");
                reveal_strlit("false");
            }
            Some((name, OptValue::BOOL(false)))
        } else {
            None
        }
    }
}

/// The options `argstr`, each name with the value of the last option of
/// that name.
pub fn parseopts(argstr: Vec<String>) -> (r: StrMap<OptValue>)
    requires
        forall|i: int| 0 <= i < argstr@.len() ==> is_option(#[trigger] argstr@[i]@),
    ensures
        views_of(r@) == options_of(names_of(argstr@)),
{
    let mut opts: StrMap<OptValue> = StrMap::new();
    let mut i: usize = 0;
    assert(names_of(argstr@).take(0) =~= Seq::<Seq<char>>::empty());
    assert(views_of(opts@) =~= Map::<Seq<char>, OptView>::empty());
    while i < argstr.len()
        invariant
            i <= argstr@.len(),
            forall|j: int| 0 <= j < argstr@.len() ==> is_option(#[trigger] argstr@[j]@),
            views_of(opts@) == options_of(names_of(argstr@).take(i as int)),
        decreases argstr@.len() - i,
    {
        let ghost before = opts@;
        match parse_option(&argstr[i]) {
            Some(p) => {
                let ghost name = p.0@;
                let ghost value = p.1;
                opts.insert(p.0, p.1);
                proof {
                    let done = names_of(argstr@).take(i + 1);
                    assert(done.drop_last() =~= names_of(argstr@).take(i as int));
                    assert(done.last() == argstr@[i as int]@);
                    assert(views_of(before.insert(name, value)) =~= views_of(before).insert(
                        name,
                        value@,
                    ));
                }
            },
            None => {
                assert(false);
            },
        }
        i = i + 1;
    }
    assert(names_of(argstr@).take(i as int) =~= names_of(argstr@));
    opts
}

/// The options `argstr` as `parseopts` gives them; none where one of the
/// texts is no option.
pub fn checked_options(argstr: Vec<String>) -> (r: Option<StrMap<OptValue>>)
    ensures
        r is Some <==> forall|i: int| 0 <= i < argstr@.len() ==> is_option(#[trigger] argstr@[i]@),
        r matches Some(opts) ==> views_of(opts@) == options_of(names_of(argstr@)),
{
    let mut i: usize = 0;
    while i < argstr.len()
        invariant
            i <= argstr@.len(),
            forall|j: int| 0 <= j < i ==> is_option(#[trigger] argstr@[j]@),
        decreases argstr@.len() - i,
    {
        if parse_option(&argstr[i]).is_none() {
            return None;
        }
        i = i + 1;
    }
    Some(parseopts(argstr))
}

} // verus!
