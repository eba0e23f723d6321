//! The reader: recursive-descent parsing functions over a sequence of
//! characters, each proved to return exactly what the grammar of
//! [`crate::grammar`] prescribes, and the public entry point [`read_edn`].

use vstd::prelude::*;
use vstd::string::StrSliceExecFns;

use crate::grammar::delim_run;
use crate::grammar::digit_run;
use crate::grammar::digit_val;
use crate::grammar::digits_val;
use crate::grammar::hex_digit_val;
use crate::grammar::hex_run;
use crate::grammar::hex_val;
use crate::grammar::is_delim;
use crate::grammar::is_digit;
use crate::grammar::is_hex_digit;
use crate::grammar::is_scalar;
use crate::grammar::match_at;
use crate::grammar::lemma_list_model;
use crate::grammar::lemma_map_model;
use crate::grammar::lemma_set_model;
use crate::grammar::lemma_vector_model;
use crate::grammar::models_of;
use crate::grammar::models_of_pairs;
use crate::grammar::spec_boolean;
use crate::grammar::spec_character;
use crate::grammar::spec_elems;
use crate::grammar::spec_integer;
use crate::grammar::spec_list;
use crate::grammar::spec_map;
use crate::grammar::spec_more_elems;
use crate::grammar::spec_more_pairs;
use crate::grammar::spec_pair;
use crate::grammar::spec_pairs;
use crate::grammar::spec_read;
use crate::grammar::spec_set;
use crate::grammar::spec_value;
use crate::grammar::spec_vector;
use crate::grammar::starts_value;
use crate::value::BasicElement;
use crate::value::BasicSet;
use crate::value::Edn;

verus! {

/// Relies on `char::from_u32` of std: the scalar value `i` decoded as a
/// character, `None` when `i` is a surrogate or above the Unicode maximum.
pub assume_specification[ char::from_u32 ](i: u32) -> (r: Option<char>)
    ensures
        r == (if i < 0xD800 || (0xE000 <= i && i <= 0x10FFFF) {
            Some(i as char)
        } else {
            None::<char>
        }),
;

/// Recognizes one delimiter token: a whitespace character or a comma.
pub fn delimiter(c: char) -> (r: bool)
    ensures
        r == is_delim(c),
{
    let u = c as u32;
    (0x9 <= u && u <= 0xD) || u == 0x20 || u == 0x85 || u == 0xA0 || u == 0x1680 || (0x2000 <= u
        && u <= 0x200A) || u == 0x2028 || u == 0x2029 || u == 0x202F || u == 0x205F || u == 0x3000
        || c == ','
}

/// Recognizes one decimal digit.
fn digit(c: char) -> (r: bool)
    ensures
        r == is_digit(c),
{
    let u = c as u32;
    48 <= u && u <= 57
}

/// Recognizes one hexadecimal digit, lower or upper case.
fn hex_digit(c: char) -> (r: bool)
    ensures
        r == is_hex_digit(c),
{
    let u = c as u32;
    (48 <= u && u <= 57) || (97 <= u && u <= 102) || (65 <= u && u <= 70)
}

/// The position right after the delimiter tokens standing at `i`.
fn skip_delimiters(s: &Vec<char>, i: usize) -> (j: usize)
    requires
        i <= s@.len(),
    ensures
        j as int == i + delim_run(s@, i as int),
        i <= j <= s@.len(),
{
    let mut j = i;
    while j < s.len() && delimiter(s[j])
        invariant
            i <= j <= s@.len(),
            i + delim_run(s@, i as int) == j + delim_run(s@, j as int),
        decreases s@.len() - j,
    {
        j += 1;
    }
    j
}

/// The position right after the text `pat`, where it stands letter for
/// letter at position `i`.
#[verifier::loop_isolation(false)]
fn match_lit(s: &Vec<char>, i: usize, pat: &str) -> (r: Option<usize>)
    requires
        i <= s@.len(),
    ensures
        match r {
            Some(p) => match_at(s@, i as int, pat@) && p == i + pat@.len() && i <= p <= s@.len(),
            None => !match_at(s@, i as int, pat@),
        },
{
    let n = pat.unicode_len();
    if n > s.len() - i {
        return None;
    }
    let mut k: usize = 0;
    while k < n
        invariant
            k <= n,
            forall|t: int| 0 <= t < k ==> s@[i + t] == pat@[t],
        decreases n - k,
    {
        if s[i + k] != pat.get_char(k) {
            assert(s@.subrange(i as int, i + pat@.len()) != pat@) by {
                assert(s@.subrange(i as int, i + pat@.len())[k as int] == s@[i + k]);
            }
            return None;
        }
        k += 1;
    }
    assert(s@.subrange(i as int, i + pat@.len()) =~= pat@);
    Some(i + n)
}

/// Parses a boolean literal: exactly `true` or `false`.
pub fn boolean(s: &Vec<char>, i: usize) -> (r: Option<(bool, usize)>)
    requires
        i <= s@.len(),
    ensures
        match r {
            Some((b, p)) => spec_boolean(s@, i as int) == Some((b, p as int)) && i < p <= s@.len(),
            None => spec_boolean(s@, i as int) is None,
        },
{
    proof {
        reveal_strlit("true");
        reveal_strlit("false");
        assert("true"@ =~= seq!['t', 'r', 'u', 'e']);
        assert("false"@ =~= seq!['f', 'a', 'l', 's', 'e']);
    }
    if let Some(p) = match_lit(s, i, "true") {
        Some((true, p))
    } else if let Some(p) = match_lit(s, i, "false") {
        Some((false, p))
    } else {
        None
    }
}

/// The base-10 value of a digit run never shrinks as the run grows, and is
/// never negative.
proof fn lemma_digits_val_grows(s: Seq<char>, i: int, e: int)
    requires
        i <= e,
        forall|k: int| i <= k < e ==> is_digit(#[trigger] s[k]),
    ensures
        digits_val(s, i, e) >= 0,
        forall|k: int| i <= k <= e ==> digits_val(s, i, e) >= #[trigger] digits_val(s, i, k),
    decreases e - i,
{
    if i < e {
        lemma_digits_val_grows(s, i, e - 1);
    }
}

/// As [`lemma_digits_val_grows`], for base-16 runs.
proof fn lemma_hex_val_grows(s: Seq<char>, i: int, e: int)
    requires
        i <= e,
        forall|k: int| i <= k < e ==> is_hex_digit(#[trigger] s[k]),
    ensures
        hex_val(s, i, e) >= 0,
        forall|k: int| i <= k <= e ==> hex_val(s, i, e) >= #[trigger] hex_val(s, i, k),
    decreases e - i,
{
    if i < e {
        lemma_hex_val_grows(s, i, e - 1);
    }
}

/// Parses an integer literal: one or more decimal digits read as a 64-bit
/// signed value, with a digit run beyond that range reported as a failure.
#[verifier::loop_isolation(false)]
pub fn integer(s: &Vec<char>, i: usize) -> (r: Option<(i64, usize)>)
    requires
        i <= s@.len(),
    ensures
        match r {
            Some((v, p)) => spec_integer(s@, i as int) == Some((v, p as int)) && i < p <= s@.len(),
            None => spec_integer(s@, i as int) is None,
        },
{
    let mut e = i;
    while e < s.len() && digit(s[e])
        invariant
            i <= e <= s@.len(),
            i + digit_run(s@, i as int) == e + digit_run(s@, e as int),
            forall|t: int| i <= t < e ==> is_digit(#[trigger] s@[t]),
        decreases s@.len() - e,
    {
        e += 1;
    }
    if e == i {
        return None;
    }
    let mut acc: u64 = 0;
    let mut k = i;
    while k < e
        invariant
            i <= k <= e,
            digits_val(s@, i as int, k as int) <= i64::MAX ==> acc == digits_val(
                s@,
                i as int,
                k as int,
            ),
            digits_val(s@, i as int, k as int) > i64::MAX ==> acc > i64::MAX,
        decreases e - k,
    {
        proof {
            lemma_digits_val_grows(s@, i as int, k as int);
        }
        let d = s[k] as u32 - 48;
        assert(d as int == digit_val(s@[k as int]));
        assert(digits_val(s@, i as int, k + 1) == digits_val(s@, i as int, k as int) * 10 + d);
        if acc > 922337203685477580u64 || (acc == 922337203685477580u64 && d > 7) {
            if acc <= 9223372036854775807u64 {
                acc = 9223372036854775807u64;
                acc += 1;
            }
        } else {
            acc = acc * 10 + (d as u64);
        }
        k += 1;
    }
    proof {
        lemma_digits_val_grows(s@, i as int, e as int);
    }
    if acc > 9223372036854775807u64 {
        return None;
    }
    Some((acc as i64, e))
}

/// Parses a character literal: a backslash, then a whole-word named escape,
/// a `u`-introduced hexadecimal escape, or one literal character.
#[verifier::loop_isolation(false)]
pub fn character(s: &Vec<char>, i: usize) -> (r: Option<(char, usize)>)
    requires
        i <= s@.len(),
    ensures
        match r {
            Some((c, p)) => spec_character(s@, i as int) == Some((c, p as int)) && i < p
                <= s@.len(),
            None => spec_character(s@, i as int) is None,
        },
{
    if i == s.len() || s[i] != '\\' {
        return None;
    }
    let j = i + 1;
    proof {
        reveal_strlit("return");
        reveal_strlit("newline");
        reveal_strlit("space");
        reveal_strlit("tab");
        assert("return"@ =~= seq!['r', 'e', 't', 'u', 'r', 'n']);
        assert("newline"@ =~= seq!['n', 'e', 'w', 'l', 'i', 'n', 'e']);
        assert("space"@ =~= seq!['s', 'p', 'a', 'c', 'e']);
        assert("tab"@ =~= seq!['t', 'a', 'b']);
    }
    if let Some(p) = match_lit(s, j, "return") {
        Some(('\r', p))
    } else if j < s.len() && s[j] == 'r' {
        None
    } else if let Some(p) = match_lit(s, j, "newline") {
        Some(('\n', p))
    } else if j < s.len() && s[j] == 'n' {
        None
    } else if let Some(p) = match_lit(s, j, "space") {
        Some((' ', p))
    } else if j < s.len() && s[j] == 's' {
        None
    } else if let Some(p) = match_lit(s, j, "tab") {
        Some(('\t', p))
    } else if j < s.len() && s[j] == 't' {
        None
    } else if j < s.len() && s[j] == 'u' {
        let h = j + 1;
        let mut e = h;
        while e < s.len() && hex_digit(s[e])
            invariant
                h <= e <= s@.len(),
                h + hex_run(s@, h as int) == e + hex_run(s@, e as int),
                forall|t: int| h <= t < e ==> is_hex_digit(#[trigger] s@[t]),
            decreases s@.len() - e,
        {
            e += 1;
        }
        if e == h {
            return Some(('u', h));
        }
        let mut acc: u64 = 0;
        let mut k = h;
        while k < e
            invariant
                h <= k <= e,
                hex_val(s@, h as int, k as int) <= 0x10FFFF ==> acc == hex_val(
                    s@,
                    h as int,
                    k as int,
                ),
                hex_val(s@, h as int, k as int) > 0x10FFFF ==> 0x10FFFF < acc
                    <= 0x10FFFF * 16 + 15,
            decreases e - k,
        {
            proof {
                lemma_hex_val_grows(s@, h as int, k as int);
            }
            let u = s[k] as u32;
            let d: u32 = if 48 <= u && u <= 57 {
                u - 48
            } else if 97 <= u && u <= 102 {
                u - 97 + 10
            } else {
                u - 65 + 10
            };
            assert(d as int == hex_digit_val(s@[k as int]));
            assert(hex_val(s@, h as int, k + 1) == hex_val(s@, h as int, k as int) * 16 + d);
            if acc <= 0x10FFFF {
                acc = acc * 16 + (d as u64);
            }
            k += 1;
        }
        proof {
            lemma_hex_val_grows(s@, h as int, e as int);
        }
        if acc < 0xD800 || (0xE000 <= acc && acc <= 0x10FFFF) {
            assert(is_scalar(hex_val(s@, h as int, e as int)));
            match char::from_u32(acc as u32) {
                Some(c) => Some((c, e)),
                None => None,
            }
        } else {
            assert(!is_scalar(hex_val(s@, h as int, e as int)));
            None
        }
    } else if j < s.len() {
        Some((s[j], j + 1))
    } else {
        None
    }
}

/// Whether a value production can open at position `i`.
fn starts(s: &Vec<char>, i: usize) -> (r: bool)
    requires
        i <= s@.len(),
    ensures
        r == starts_value(s@, i as int),
{
    if i == s.len() {
        return false;
    }
    let c = s[i];
    c == 'n' || c == 't' || c == 'f' || digit(c) || c == '\\' || c == '(' || c == '[' || c == '{'
        || c == '#'
}

/// Parses the elements of a container body, each after one or more
/// delimiter tokens, stopping cleanly where no separator follows.
#[verifier::loop_isolation(false)]
fn elements(s: &Vec<char>, i0: usize) -> (r: Option<(Vec<Edn>, usize)>)
    requires
        i0 <= s@.len(),
    ensures
        match r {
            Some((es, p)) => spec_elems(s@, i0 as int) == Some((models_of(es@), p as int)) && i0
                <= p <= s@.len(),
            None => spec_elems(s@, i0 as int) is None,
        },
    decreases s@.len() - i0, 3int,
{
    let t = skip_delimiters(s, i0);
    if t == i0 && !starts(s, i0) {
        let items: Vec<Edn> = Vec::new();
        assert(models_of(items@) =~= Seq::<crate::grammar::Node>::empty());
        return Some((items, i0));
    }
    match parse_edn(s, i0) {
        None => None,
        Some((v, p)) => {
            let mut items: Vec<Edn> = Vec::new();
            items.push(v);
            let mut pos = p;
            assert(models_of(items@) =~= seq![v.model()]);
            let mut d = skip_delimiters(s, pos);
            while d > pos
                invariant
                    i0 < pos <= s@.len(),
                    pos <= d <= s@.len(),
                    d as int == pos + delim_run(s@, pos as int),
                    (match spec_more_elems(s@, pos as int) {
                        Some((vs, q)) => spec_elems(s@, i0 as int) == Some(
                            (models_of(items@) + vs, q),
                        ),
                        None => spec_elems(s@, i0 as int) is None,
                    }),
                decreases s@.len() - pos,
            {
                match parse_edn(s, d) {
                    None => {
                        return None;
                    },
                    Some((v2, p2)) => {
                        proof {
                            assert(models_of(items@.push(v2)) =~= models_of(items@) + seq![
                                v2.model(),
                            ]);
                            if let Some((vs2, q)) = spec_more_elems(s@, p2 as int) {
                                assert((models_of(items@) + (seq![v2.model()] + vs2)) =~= (
                                models_of(items@.push(v2)) + vs2));
                            }
                        }
                        items.push(v2);
                        pos = p2;
                    },
                }
                d = skip_delimiters(s, pos);
            }
            assert(models_of(items@) + Seq::<crate::grammar::Node>::empty() =~= models_of(
                items@,
            ));
            Some((items, pos))
        },
    }
}

/// Parses one key-value pair: a value, one or more delimiter tokens, one
/// more value.
pub fn pair(s: &Vec<char>, i: usize) -> (r: Option<((Edn, Edn), usize)>)
    requires
        i <= s@.len(),
    ensures
        match r {
            Some(((k, v), p)) => spec_pair(s@, i as int) == Some(((k.model(), v.model()), p as int))
                && i < p <= s@.len(),
            None => spec_pair(s@, i as int) is None,
        },
    decreases s@.len() - i, 2int,
{
    match parse_edn(s, i) {
        None => None,
        Some((k, p)) => {
            let d = skip_delimiters(s, p);
            if d == p {
                return None;
            }
            match parse_edn(s, d) {
                None => None,
                Some((v, p2)) => Some(((k, v), p2)),
            }
        },
    }
}

/// Parses the key-value pairs of a map body.
#[verifier::loop_isolation(false)]
fn map_entries(s: &Vec<char>, i0: usize) -> (r: Option<(Vec<(Edn, Edn)>, usize)>)
    requires
        i0 <= s@.len(),
    ensures
        match r {
            Some((es, p)) => spec_pairs(s@, i0 as int) == Some((models_of_pairs(es@), p as int))
                && i0 <= p <= s@.len(),
            None => spec_pairs(s@, i0 as int) is None,
        },
    decreases s@.len() - i0, 3int,
{
    let t = skip_delimiters(s, i0);
    if t == i0 && !starts(s, i0) {
        let items: Vec<(Edn, Edn)> = Vec::new();
        assert(models_of_pairs(items@) =~= Seq::<(crate::grammar::Node, crate::grammar::Node)>::empty());
        return Some((items, i0));
    }
    match pair(s, i0) {
        None => None,
        Some((kv, p)) => {
            let mut items: Vec<(Edn, Edn)> = Vec::new();
            let ghost kvm = (kv.0.model(), kv.1.model());
            items.push(kv);
            let mut pos = p;
            assert(models_of_pairs(items@) =~= seq![kvm]);
            let mut d = skip_delimiters(s, pos);
            while d > pos
                invariant
                    i0 < pos <= s@.len(),
                    pos <= d <= s@.len(),
                    d as int == pos + delim_run(s@, pos as int),
                    (match spec_more_pairs(s@, pos as int) {
                        Some((vs, q)) => spec_pairs(s@, i0 as int) == Some(
                            (models_of_pairs(items@) + vs, q),
                        ),
                        None => spec_pairs(s@, i0 as int) is None,
                    }),
                decreases s@.len() - pos,
            {
                match pair(s, d) {
                    None => {
                        return None;
                    },
                    Some((kv2, p2)) => {
                        proof {
                            let kvm2 = (kv2.0.model(), kv2.1.model());
                            assert(models_of_pairs(items@.push(kv2)) =~= models_of_pairs(items@)
                                + seq![kvm2]);
                            if let Some((vs2, q)) = spec_more_pairs(s@, p2 as int) {
                                assert((models_of_pairs(items@) + (seq![kvm2] + vs2)) =~= (
                                models_of_pairs(items@.push(kv2)) + vs2));
                            }
                        }
                        items.push(kv2);
                        pos = p2;
                    },
                }
                d = skip_delimiters(s, pos);
            }
            assert(models_of_pairs(items@) + Seq::<(crate::grammar::Node, crate::grammar::Node)>::empty()
                =~= models_of_pairs(items@));
            Some((items, pos))
        },
    }
}

/// Parses a list: elements between `(` and `)`.
pub fn list(s: &Vec<char>, j: usize) -> (r: Option<(Edn, usize)>)
    requires
        j < s@.len(),
        s@[j as int] == '(',
    ensures
        match r {
            Some((e, p)) => spec_list(s@, j as int) == Some((e.model(), p as int)) && j < p
                <= s@.len(),
            None => spec_list(s@, j as int) is None,
        },
    decreases s@.len() - j, 0int,
{
    let n = s.len();
    match elements(s, j + 1) {
        None => None,
        Some((items, p)) => {
            if p < n && s[p] == ')' {
                proof {
                    lemma_list_model(items);
                }
                Some((Edn::List(items), p + 1))
            } else {
                None
            }
        },
    }
}

/// Parses a vector: elements between `[` and `]`.
pub fn vector(s: &Vec<char>, j: usize) -> (r: Option<(Edn, usize)>)
    requires
        j < s@.len(),
        s@[j as int] == '[',
    ensures
        match r {
            Some((e, p)) => spec_vector(s@, j as int) == Some((e.model(), p as int)) && j < p
                <= s@.len(),
            None => spec_vector(s@, j as int) is None,
        },
    decreases s@.len() - j, 0int,
{
    let n = s.len();
    match elements(s, j + 1) {
        None => None,
        Some((items, p)) => {
            if p < n && s[p] == ']' {
                proof {
                    lemma_vector_model(items);
                }
                Some((Edn::Vector(items), p + 1))
            } else {
                None
            }
        },
    }
}

/// Parses a map: key-value pairs between `{` and `}`.
pub fn map(s: &Vec<char>, j: usize) -> (r: Option<(Edn, usize)>)
    requires
        j < s@.len(),
        s@[j as int] == '{',
    ensures
        match r {
            Some((e, p)) => spec_map(s@, j as int) == Some((e.model(), p as int)) && j < p
                <= s@.len(),
            None => spec_map(s@, j as int) is None,
        },
    decreases s@.len() - j, 0int,
{
    let n = s.len();
    match map_entries(s, j + 1) {
        None => None,
        Some((items, p)) => {
            if p < n && s[p] == '}' {
                let bag = BasicSet::from_elements(items);
                proof {
                    lemma_map_model(bag);
                }
                Some((Edn::EMap(bag), p + 1))
            } else {
                None
            }
        },
    }
}

/// Parses a set: elements between `#{` and `}`.
pub fn set(s: &Vec<char>, j: usize) -> (r: Option<(Edn, usize)>)
    requires
        j < s@.len(),
        s@[j as int] == '#',
    ensures
        match r {
            Some((e, p)) => spec_set(s@, j as int) == Some((e.model(), p as int)) && j < p
                <= s@.len(),
            None => spec_set(s@, j as int) is None,
        },
    decreases s@.len() - j, 0int,
{
    let n = s.len();
    if j + 1 == n || s[j + 1] != '{' {
        return None;
    }
    match elements(s, j + 2) {
        None => None,
        Some((items, p)) => {
            if p < n && s[p] == '}' {
                let bag = BasicSet::from_elements(items);
                proof {
                    lemma_set_model(bag);
                }
                Some((Edn::ESet(bag), p + 1))
            } else {
                None
            }
        },
    }
}

/// The top-level production: skips leading delimiter tokens, then tries the
/// literal and container productions as an ordered choice committed to by
/// the first character seen.
pub fn parse_edn(s: &Vec<char>, i: usize) -> (r: Option<(Edn, usize)>)
    requires
        i <= s@.len(),
    ensures
        match r {
            Some((e, p)) => spec_value(s@, i as int) == Some((e.model(), p as int)) && i < p
                <= s@.len(),
            None => spec_value(s@, i as int) is None,
        },
    decreases s@.len() - i, 1int,
{
    let j = skip_delimiters(s, i);
    if j == s.len() {
        return None;
    }
    let c = s[j];
    if c == 'n' {
        proof {
            reveal_strlit("nil");
            assert("nil"@ =~= seq!['n', 'i', 'l']);
        }
        match match_lit(s, j, "nil") {
            Some(p) => Some((Edn::Basic(BasicElement::Nil), p)),
            None => None,
        }
    } else if c == 't' || c == 'f' {
        match boolean(s, j) {
            Some((b, p)) => Some((Edn::Basic(BasicElement::Boolean(b)), p)),
            None => None,
        }
    } else if digit(c) {
        match integer(s, j) {
            Some((v, p)) => Some((Edn::Basic(BasicElement::Integer(v)), p)),
            None => None,
        }
    } else if c == '\\' {
        match character(s, j) {
            Some((ch, p)) => {
                proof {
                    crate::grammar::lemma_basic_model(BasicElement::Character(ch));
                }
                Some((Edn::Basic(BasicElement::Character(ch)), p))
            },
            None => None,
        }
    } else if c == '(' {
        list(s, j)
    } else if c == '[' {
        vector(s, j)
    } else if c == '{' {
        map(s, j)
    } else if c == '#' {
        set(s, j)
    } else {
        None
    }
}

/// Reads a whole input text: skips leading delimiter tokens, parses one
/// value, and ignores any unconsumed trailing input.  On any input the
/// grammar rejects, returns a failure with a fixed message instead.  The
/// reader never mutates the input and never panics; its call-stack depth
/// follows the nesting depth of the input text.
pub fn read_edn(input: &str) -> (r: Result<Edn, &str>)
    ensures
        match r {
            Ok(e) => spec_read(input@) == Some(e.model()),
            Err(_) => spec_read(input@) is None,
        },
{
    let n = input.unicode_len();
    let mut cs: Vec<char> = Vec::new();
    while cs.len() < n
        invariant
            cs@.len() <= n,
            n == input@.len(),
            forall|t: int| 0 <= t < cs@.len() ==> cs@[t] == input@[t],
        decreases n - cs@.len(),
    {
        let k = cs.len();
        cs.push(input.get_char(k));
    }
    proof {
        assert(cs@ =~= input@);
    }
    match parse_edn(&cs, 0) {
        Some((e, _)) => Ok(e),
        None => Err("invalid input"),
    }
}

} // verus!
