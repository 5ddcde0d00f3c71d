//! Decoding of attribute values: identifiers, lists of references, numbers,
//! presence-encoded flags and access words.

use crate::model::{lemma_views_empty, lemma_views_push, views};
use crate::schema::{Access, Bool, Id, IdRef};
use vstd::prelude::*;
use vstd::string::StringExecFns;

verus! {

/// Whether the character is an ASCII decimal digit.
pub open spec fn is_digit(c: char) -> bool {
    '0' <= c <= '9'
}

/// Whether the character is ASCII whitespace.
pub open spec fn is_space(c: char) -> bool {
    c == ' ' || c == '\t' || c == '\n' || c == '\r' || c == '\u{c}'
}

/// Whether every character is an ASCII decimal digit.
pub open spec fn all_digits(s: Seq<char>) -> bool {
    forall|i: int| 0 <= i < s.len() ==> is_digit(#[trigger] s[i])
}

/// The value of a decimal digit.
pub open spec fn digit_value(c: char) -> nat {
    (c as int - '0' as int) as nat
}

/// The value of a string of decimal digits.
pub open spec fn decimal(s: Seq<char>) -> nat
    decreases s.len(),
{
    if s.len() == 0 {
        0
    } else {
        10 * decimal(s.drop_last()) + digit_value(s.last())
    }
}

/// The number that a numeral denotes: one or more decimal digits whose
/// value fits in 64 bits.
pub open spec fn numeral(s: Seq<char>) -> Option<u64> {
    if s.len() > 0 && all_digits(s) && decimal(s) <= u64::MAX {
        Some(decimal(s) as u64)
    } else {
        None
    }
}

/// The numeral of an identifier: the sigil `_`, then a numeral.
pub open spec fn id_numeral(s: Seq<char>) -> Option<u64> {
    if s.len() > 0 && s[0] == '_' {
        numeral(s.skip(1))
    } else {
        None
    }
}

/// The maximal runs of characters that are not whitespace, in order.
pub open spec fn tokens(s: Seq<char>) -> Seq<Seq<char>>
    decreases s.len(),
{
    if s.len() == 0 {
        Seq::empty()
    } else {
        let front = tokens(s.drop_last());
        let c = s.last();
        if is_space(c) {
            front
        } else if s.len() >= 2 && !is_space(s[s.len() - 2]) && front.len() > 0 {
            front.drop_last().push(front.last().push(c))
        } else {
            front.push(seq![c])
        }
    }
}

/// The numerals of a list of identifiers delimited by whitespace; no list
/// where one of its tokens is no identifier.
pub open spec fn idref_list(s: Seq<char>) -> Option<Seq<u64>> {
    let ts = tokens(s);
    if forall|i: int| 0 <= i < ts.len() ==> id_numeral(#[trigger] ts[i]) is Some {
        Some(Seq::new(ts.len(), |i: int| id_numeral(ts[i])->0))
    } else {
        None
    }
}

/// The integer that a numeral with an optional minus sign denotes, where it
/// fits in 64 bits.
pub open spec fn integer(s: Seq<char>) -> Option<i64> {
    if s.len() > 0 && s[0] == '-' {
        match numeral(s.skip(1)) {
            Some(m) => if m <= 0x8000_0000_0000_0000 {
                Some((0 - m) as i64)
            } else {
                None
            },
            None => None,
        }
    } else {
        match numeral(s) {
            Some(m) => if m <= i64::MAX {
                Some(m as i64)
            } else {
                None
            },
            None => None,
        }
    }
}

/// The numerals of a vector of references.
pub open spec fn numerals_of(refs: Seq<IdRef>) -> Seq<u64> {
    Seq::new(refs.len(), |i: int| refs[i].0)
}

/// What a presence-encoded flag says: false where the attribute is absent,
/// true where it is present with a numeral that is not zero, and nothing
/// for any other value.
pub open spec fn flag_value(value: Option<Seq<char>>) -> Option<bool> {
    match value {
        None => Some(false),
        Some(s) => if s.len() > 0 && all_digits(s) && exists|i: int| 0 <= i < s.len() && s[i] != '0' {
            Some(true)
        } else {
            None
        },
    }
}

/// The access level that a word names.
pub open spec fn access_word(s: Seq<char>) -> Option<Access> {
    if s == "public"@ {
        Some(Access::Public)
    } else if s == "protected"@ {
        Some(Access::Protected)
    } else if s == "private"@ {
        Some(Access::Private)
    } else {
        None
    }
}

/// The value of a prefix of a string of digits is no more than that of the
/// string.
pub proof fn lemma_decimal_prefix(s: Seq<char>, k: int)
    requires
        0 <= k <= s.len(),
    ensures
        decimal(s.take(k)) <= decimal(s),
    decreases s.len() - k,
{
    if k == s.len() {
        assert(s.take(k) =~= s);
    } else {
        assert(s.take(k + 1).drop_last() =~= s.take(k));
        lemma_decimal_prefix(s, k + 1);
    }
}

/// The characters of a string slice.
pub fn chars_of(text: &str) -> (v: Vec<char>)
    ensures
        v@ == text@,
{
    let mut v: Vec<char> = Vec::new();
    for c in it: text.chars()
        invariant
            it.seq() == text@,
            v@ == text@.take(it.index() as int),
    {
        v.push(c);
        assert(v@ =~= text@.take(it.index() + 1));
    }
    assert(text@.take(text@.len() as int) =~= text@);
    v
}

/// Reads the numeral that the characters from position `from` on spell.
pub fn numeral_from(chars: &Vec<char>, from: usize) -> (r: Option<u64>)
    requires
        from <= chars@.len(),
    ensures
        r == numeral(chars@.skip(from as int)),
{
    let ghost s = chars@.skip(from as int);
    let n: usize = chars.len();
    if from == n {
        return None;
    }
    let mut value: u64 = 0;
    let mut i: usize = from;
    proof {
        assert(s.take(0) =~= Seq::<char>::empty());
    }
    while i < n
        invariant
            from <= i <= n,
            n == chars@.len(),
            s == chars@.skip(from as int),
            all_digits(s.take(i - from)),
            value == decimal(s.take(i - from)),
        decreases n - i,
    {
        let c: char = chars[i];
        proof {
            assert(s[i - from] == c);
            assert(s.take(i - from + 1).drop_last() =~= s.take(i - from));
            assert(s.take(i - from + 1).last() == c);
        }
        if !(c >= '0' && c <= '9') {
            return None;
        }
        let d: u64 = (c as u32 - '0' as u32) as u64;
        if value > (u64::MAX - d) / 10 {
            proof {
                lemma_decimal_prefix(s, i - from + 1);
            }
            return None;
        }
        value = 10 * value + d;
        proof {
            let longer = s.take(i - from + 1);
            assert forall|j: int| 0 <= j < longer.len() implies is_digit(#[trigger] longer[j]) by {
                if j < i - from {
                    assert(s.take(i - from)[j] == longer[j]);
                }
            }
        }
        i = i + 1;
    }
    proof {
        assert(s.take(n - from) =~= s);
    }
    Some(value)
}

/// Reads the numeral of an identifier from its characters.
pub fn id_from(chars: &Vec<char>) -> (r: Option<u64>)
    ensures
        r == id_numeral(chars@),
{
    if chars.len() == 0 {
        return None;
    }
    if chars[0] != '_' {
        return None;
    }
    numeral_from(chars, 1)
}

/// Decodes a node's own identifier.
pub fn parse_id(text: &str) -> (r: Option<Id>)
    ensures
        match r {
            Some(id) => id_numeral(text@) == Some(id.0),
            None => id_numeral(text@) is None,
        },
{
    let chars = chars_of(text);
    match id_from(&chars) {
        Some(n) => Some(Id(n)),
        None => None,
    }
}

/// Decodes a reference to a node.
pub fn parse_idref(text: &str) -> (r: Option<IdRef>)
    ensures
        match r {
            Some(idref) => id_numeral(text@) == Some(idref.0),
            None => id_numeral(text@) is None,
        },
{
    let chars = chars_of(text);
    match id_from(&chars) {
        Some(n) => Some(IdRef(n)),
        None => None,
    }
}

/// Decodes a number.
pub fn parse_number(text: &str) -> (r: Option<u64>)
    ensures
        r == numeral(text@),
{
    let chars = chars_of(text);
    proof {
        assert(chars@.skip(0) =~= chars@);
    }
    numeral_from(&chars, 0)
}

/// Decodes an integer.
pub fn parse_integer(text: &str) -> (r: Option<i64>)
    ensures
        r == integer(text@),
{
    let chars = chars_of(text);
    if chars.len() > 0 && chars[0] == '-' {
        match numeral_from(&chars, 1) {
            Some(m) => if m < 0x8000_0000_0000_0000 {
                Some(0 - (m as i64))
            } else if m == 0x8000_0000_0000_0000 {
                Some(i64::MIN)
            } else {
                None
            },
            None => None,
        }
    } else {
        proof {
            assert(chars@.skip(0) =~= chars@);
        }
        match numeral_from(&chars, 0) {
            Some(m) => if m <= 0x7fff_ffff_ffff_ffff {
                Some(m as i64)
            } else {
                None
            },
            None => None,
        }
    }
}

/// Splits a text at whitespace: its maximal runs of other characters, in
/// order.
pub fn split_tokens(text: &str) -> (r: Vec<Vec<char>>)
    ensures
        views(r@) == tokens(text@),
{
    let mut done: Vec<Vec<char>> = Vec::new();
    let mut current: Vec<char> = Vec::new();
    proof {
        lemma_views_empty(done@);
    }
    for c in it: text.chars()
        invariant
            it.seq() == text@,
            tokens(text@.take(it.index() as int)) == if current@.len() > 0 {
                views(done@).push(current@)
            } else {
                views(done@)
            },
            current@.len() > 0 <==> it.index() > 0 && !is_space(text@[it.index() - 1]),
    {
        let ghost k = it.index() as int;
        proof {
            assert(text@.take(k + 1).drop_last() =~= text@.take(k));
            assert(text@.take(k + 1).last() == c);
            if k > 0 {
                assert(text@.take(k + 1)[k - 1] == text@[k - 1]);
            }
        }
        if c == ' ' || c == '\t' || c == '\n' || c == '\r' || c == '\u{c}' {
            if current.len() > 0 {
                proof {
                    lemma_views_push(done@, current);
                }
                done.push(current);
                current = Vec::new();
            }
        } else {
            let ghost before = current@;
            current.push(c);
            proof {
                if before.len() > 0 {
                    assert(views(done@).push(before).drop_last() =~= views(done@));
                    assert(views(done@).push(before).last() == before);
                } else {
                    assert(current@ =~= seq![c]);
                }
            }
        }
    }
    proof {
        assert(text@.take(text@.len() as int) =~= text@);
    }
    if current.len() > 0 {
        proof {
            lemma_views_push(done@, current);
        }
        done.push(current);
    }
    done
}

/// Decodes a list of references delimited by whitespace, in order. One
/// token that is no identifier spoils the whole list.
pub fn parse_idrefs(text: &str) -> (r: Option<Vec<IdRef>>)
    ensures
        match r {
            Some(v) => idref_list(text@) == Some(numerals_of(v@)),
            None => idref_list(text@) is None,
        },
{
    let parts = split_tokens(text);
    let mut refs: Vec<IdRef> = Vec::new();
    let n: usize = parts.len();
    let mut i: usize = 0;
    while i < n
        invariant
            n == parts@.len(),
            0 <= i <= n,
            views(parts@) == tokens(text@),
            refs@.len() == i,
            forall|j: int| 0 <= j < i ==> id_numeral(#[trigger] tokens(text@)[j]) == Some(refs@[j].0),
        decreases n - i,
    {
        proof {
            assert(views(parts@)[i as int] == parts@[i as int]@);
        }
        match id_from(&parts[i]) {
            Some(numeral) => {
                refs.push(IdRef(numeral));
            },
            None => {
                proof {
                    assert(id_numeral(tokens(text@)[i as int]) is None);
                }
                return None;
            },
        }
        i = i + 1;
    }
    proof {
        assert(numerals_of(refs@) =~= Seq::new(tokens(text@).len(), |j: int| id_numeral(tokens(text@)[j])->0));
    }
    Some(refs)
}

/// Decodes a presence-encoded flag.
pub fn parse_flag(value: Option<&str>) -> (r: Option<Bool>)
    ensures
        match r {
            Some(b) => flag_value(
                match value {
                    Some(t) => Some(t@),
                    None => None,
                },
            ) == Some(b.0),
            None => flag_value(
                match value {
                    Some(t) => Some(t@),
                    None => None,
                },
            ) is None,
        },
{
    let text: &str = match value {
        None => {
            return Some(Bool(false));
        },
        Some(t) => t,
    };
    let mut nonzero: bool = false;
    for c in it: text.chars()
        invariant
            it.seq() == text@,
            value == Some(text),
            forall|i: int| 0 <= i < it.index() ==> is_digit(#[trigger] text@[i]),
            nonzero <==> exists|i: int| 0 <= i < it.index() && text@[i] != '0',
    {
        if !(c >= '0' && c <= '9') {
            assert(!is_digit(text@[it.index() as int]));
            return None;
        }
        if c != '0' {
            nonzero = true;
        }
    }
    if nonzero {
        Some(Bool(true))
    } else {
        None
    }
}

/// Decodes an access word.
pub fn parse_access(text: &str) -> (r: Option<Access>)
    ensures
        r == access_word(text@),
{
    let word: String = text.to_owned();
    if word == String::from_str("public") {
        Some(Access::Public)
    } else if word == String::from_str("protected") {
        Some(Access::Protected)
    } else if word == String::from_str("private") {
        Some(Access::Private)
    } else {
        None
    }
}

} // verus!
