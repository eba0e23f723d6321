//! The grammar of the notation, stated over mathematical sequences of
//! characters.  [`spec_value`] is the top-level production: it skips leading
//! delimiter tokens and then tries, in a fixed order, the absence literal,
//! the two boolean literals, an integer literal, a character literal, and
//! the four containers.  Alternatives commit on their first character: once
//! a literal's opening character is seen, the rest of that literal must
//! follow, or the whole production fails.  [`Node`] is the mathematical
//! shape of a parsed tree, and [`Edn::model`] maps an executable tree to it.

use vstd::prelude::*;

use crate::value::BasicElement;
use crate::value::Edn;

verus! {

/// The mathematical shape of a value tree: what a parsed [`Edn`] holds, with
/// strings as character sequences and containers as element sequences.
pub enum Node {
    Nil,
    Bool(bool),
    Str(Seq<char>),
    Char(char),
    Sym(Seq<char>),
    Key(Seq<char>),
    Int(i64),
    Tagged,
    List(Seq<Node>),
    Vector(Seq<Node>),
    EMap(Seq<(Node, Node)>),
    ESet(Seq<Node>),
}

impl Edn {
    /// The mathematical shape of this tree.
    pub open spec fn model(self) -> Node
        decreases self,
    {
        match self {
            Edn::Basic(b) => match b {
                BasicElement::Nil => Node::Nil,
                BasicElement::Boolean(x) => Node::Bool(x),
                BasicElement::EString(s) => Node::Str(s@),
                BasicElement::Character(c) => Node::Char(c),
                BasicElement::Symbol(s) => Node::Sym(s@),
                BasicElement::Keyword(s) => Node::Key(s@),
                BasicElement::Integer(n) => Node::Int(n),
            },
            Edn::Tagged(_) => Node::Tagged,
            Edn::List(v) => Node::List(
                Seq::new(v@.len(), |i: int| if 0 <= i < v@.len() { v@[i].model() } else { Node::Nil }),
            ),
            Edn::Vector(v) => Node::Vector(
                Seq::new(v@.len(), |i: int| if 0 <= i < v@.len() { v@[i].model() } else { Node::Nil }),
            ),
            Edn::EMap(x) => Node::EMap(
                Seq::new(
                    x.elements@.len(),
                    |i: int|
                        if 0 <= i < x.elements@.len() {
                            (x.elements@[i].0.model(), x.elements@[i].1.model())
                        } else {
                            (Node::Nil, Node::Nil)
                        },
                ),
            ),
            Edn::ESet(x) => Node::ESet(
                Seq::new(
                    x.elements@.len(),
                    |i: int| if 0 <= i < x.elements@.len() { x.elements@[i].model() } else { Node::Nil },
                ),
            ),
        }
    }
}

/// A whitespace character: the Unicode white-space code points, as Rust's
/// `char::is_whitespace` recognizes them.
pub open spec fn is_whitespace_char(c: char) -> bool {
    let u = c as u32;
    ||| (0x9 <= u && u <= 0xD)
    ||| u == 0x20
    ||| u == 0x85
    ||| u == 0xA0
    ||| u == 0x1680
    ||| (0x2000 <= u && u <= 0x200A)
    ||| u == 0x2028
    ||| u == 0x2029
    ||| u == 0x202F
    ||| u == 0x205F
    ||| u == 0x3000
}

/// A delimiter token: one whitespace character or one comma.
pub open spec fn is_delim(c: char) -> bool {
    is_whitespace_char(c) || c == ','
}

/// A decimal digit.
pub open spec fn is_digit(c: char) -> bool {
    48 <= c as u32 && c as u32 <= 57
}

/// The value of a decimal digit.
pub open spec fn digit_val(c: char) -> int {
    c as u32 - 48
}

/// A hexadecimal digit, lower or upper case.
pub open spec fn is_hex_digit(c: char) -> bool {
    let u = c as u32;
    (48 <= u && u <= 57) || (97 <= u && u <= 102) || (65 <= u && u <= 70)
}

/// The value of a hexadecimal digit, with the letter digits worth ten to
/// fifteen.
pub open spec fn hex_digit_val(c: char) -> int {
    let u = c as u32;
    if 48 <= u && u <= 57 {
        u - 48
    } else if 97 <= u && u <= 102 {
        u - 97 + 10
    } else {
        u - 65 + 10
    }
}

/// How many consecutive delimiter tokens stand at position `i`.
pub open spec fn delim_run(s: Seq<char>, i: int) -> nat
    decreases s.len() - i,
{
    if 0 <= i < s.len() && is_delim(s[i]) {
        1 + delim_run(s, i + 1)
    } else {
        0
    }
}

/// How many consecutive decimal digits stand at position `i`.
pub open spec fn digit_run(s: Seq<char>, i: int) -> nat
    decreases s.len() - i,
{
    if 0 <= i < s.len() && is_digit(s[i]) {
        1 + digit_run(s, i + 1)
    } else {
        0
    }
}

/// How many consecutive hexadecimal digits stand at position `i`.
pub open spec fn hex_run(s: Seq<char>, i: int) -> nat
    decreases s.len() - i,
{
    if 0 <= i < s.len() && is_hex_digit(s[i]) {
        1 + hex_run(s, i + 1)
    } else {
        0
    }
}

/// The base-10 value of the digit run `s[i..e)`.
pub open spec fn digits_val(s: Seq<char>, i: int, e: int) -> int
    decreases e - i,
{
    if i < e {
        digits_val(s, i, e - 1) * 10 + digit_val(s[e - 1])
    } else {
        0
    }
}

/// The base-16 value of the hexadecimal digit run `s[i..e)`.
pub open spec fn hex_val(s: Seq<char>, i: int, e: int) -> int
    decreases e - i,
{
    if i < e {
        hex_val(s, i, e - 1) * 16 + hex_digit_val(s[e - 1])
    } else {
        0
    }
}

/// The text `t` stands letter for letter at position `i` of `s`.
pub open spec fn match_at(s: Seq<char>, i: int, t: Seq<char>) -> bool {
    i >= 0 && i + t.len() <= s.len() && s.subrange(i, i + t.len() as int) == t
}

/// A Unicode scalar value: a code point that is a character (not a
/// surrogate, not above the Unicode maximum).
pub open spec fn is_scalar(v: int) -> bool {
    (0 <= v < 0xD800) || (0xE000 <= v <= 0x10FFFF)
}

/// The boolean literal production: exactly `true` or `false`.
pub open spec fn spec_boolean(s: Seq<char>, i: int) -> Option<(bool, int)> {
    if match_at(s, i, seq!['t', 'r', 'u', 'e']) {
        Some((true, i + 4))
    } else if match_at(s, i, seq!['f', 'a', 'l', 's', 'e']) {
        Some((false, i + 5))
    } else {
        None
    }
}

/// The integer literal production: one or more decimal digits, read as a
/// 64-bit signed value.  A digit run whose value exceeds that range is a
/// reported failure, never a wrapped or truncated value.
pub open spec fn spec_integer(s: Seq<char>, i: int) -> Option<(i64, int)> {
    let e = i + digit_run(s, i);
    if e == i {
        None
    } else if digits_val(s, i, e) <= i64::MAX {
        Some((digits_val(s, i, e) as i64, e))
    } else {
        None
    }
}

/// The character literal production: a backslash, then a whole-word named
/// escape (`return`, `newline`, `space`, `tab`), or `u` followed by
/// hexadecimal digits (none: the character `u`; some: the scalar with that
/// base-16 code), or any single character taken literally.  A named escape
/// commits on its first letter: `\\r` not followed by the rest of `return`
/// fails rather than falling back to a literal `r`.
pub open spec fn spec_character(s: Seq<char>, i: int) -> Option<(char, int)> {
    if !(0 <= i < s.len() && s[i] == '\\') {
        None
    } else {
        let j = i + 1;
        if match_at(s, j, seq!['r', 'e', 't', 'u', 'r', 'n']) {
            Some(('\r', j + 6))
        } else if j < s.len() && s[j] == 'r' {
            None
        } else if match_at(s, j, seq!['n', 'e', 'w', 'l', 'i', 'n', 'e']) {
            Some(('\n', j + 7))
        } else if j < s.len() && s[j] == 'n' {
            None
        } else if match_at(s, j, seq!['s', 'p', 'a', 'c', 'e']) {
            Some((' ', j + 5))
        } else if j < s.len() && s[j] == 's' {
            None
        } else if match_at(s, j, seq!['t', 'a', 'b']) {
            Some(('\t', j + 3))
        } else if j < s.len() && s[j] == 't' {
            None
        } else if j < s.len() && s[j] == 'u' {
            let e = j + 1 + hex_run(s, j + 1);
            if e == j + 1 {
                Some(('u', j + 1))
            } else if is_scalar(hex_val(s, j + 1, e)) {
                Some(((hex_val(s, j + 1, e) as u32) as char, e))
            } else {
                None
            }
        } else if j < s.len() {
            Some((s[j], j + 1))
        } else {
            None
        }
    }
}

/// A character that can open a value production.
pub open spec fn starts_value(s: Seq<char>, i: int) -> bool {
    0 <= i < s.len() && {
        ||| s[i] == 'n'
        ||| s[i] == 't'
        ||| s[i] == 'f'
        ||| is_digit(s[i])
        ||| s[i] == '\\'
        ||| s[i] == '('
        ||| s[i] == '['
        ||| s[i] == '{'
        ||| s[i] == '#'
    }
}

/// The list production: elements between `(` and `)`.
pub open spec fn spec_list(s: Seq<char>, j: int) -> Option<(Node, int)>
    decreases s.len() - j, 0int,
{
    if 0 <= j < s.len() && s[j] == '(' {
        match spec_elems(s, j + 1) {
            Some((es, p)) => if p < s.len() && s[p] == ')' {
                Some((Node::List(es), p + 1))
            } else {
                None
            },
            None => None,
        }
    } else {
        None
    }
}

/// The vector production: elements between `[` and `]`.
pub open spec fn spec_vector(s: Seq<char>, j: int) -> Option<(Node, int)>
    decreases s.len() - j, 0int,
{
    if 0 <= j < s.len() && s[j] == '[' {
        match spec_elems(s, j + 1) {
            Some((es, p)) => if p < s.len() && s[p] == ']' {
                Some((Node::Vector(es), p + 1))
            } else {
                None
            },
            None => None,
        }
    } else {
        None
    }
}

/// The map production: key-value pairs between `{` and `}`.
pub open spec fn spec_map(s: Seq<char>, j: int) -> Option<(Node, int)>
    decreases s.len() - j, 0int,
{
    if 0 <= j < s.len() && s[j] == '{' {
        match spec_pairs(s, j + 1) {
            Some((ps, p)) => if p < s.len() && s[p] == '}' {
                Some((Node::EMap(ps), p + 1))
            } else {
                None
            },
            None => None,
        }
    } else {
        None
    }
}

/// The set production: elements between `#{` and `}`.
pub open spec fn spec_set(s: Seq<char>, j: int) -> Option<(Node, int)>
    decreases s.len() - j, 0int,
{
    if 0 <= j < s.len() && s[j] == '#' && j + 1 < s.len() && s[j + 1] == '{' {
        match spec_elems(s, j + 2) {
            Some((es, p)) => if p < s.len() && s[p] == '}' {
                Some((Node::ESet(es), p + 1))
            } else {
                None
            },
            None => None,
        }
    } else {
        None
    }
}

/// The top-level value production: skip leading delimiter tokens, then an
/// ordered choice among the literal and container productions, committed to
/// by the first character seen.
pub open spec fn spec_value(s: Seq<char>, i: int) -> Option<(Node, int)>
    decreases s.len() - i, 1int,
{
    let j = i + delim_run(s, i);
    if j >= s.len() {
        None
    } else if s[j] == 'n' {
        if match_at(s, j, seq!['n', 'i', 'l']) {
            Some((Node::Nil, j + 3))
        } else {
            None
        }
    } else if s[j] == 't' || s[j] == 'f' {
        match spec_boolean(s, j) {
            Some((b, p)) => Some((Node::Bool(b), p)),
            None => None,
        }
    } else if is_digit(s[j]) {
        match spec_integer(s, j) {
            Some((v, p)) => Some((Node::Int(v), p)),
            None => None,
        }
    } else if s[j] == '\\' {
        match spec_character(s, j) {
            Some((c, p)) => Some((Node::Char(c), p)),
            None => None,
        }
    } else if s[j] == '(' {
        spec_list(s, j)
    } else if s[j] == '[' {
        spec_vector(s, j)
    } else if s[j] == '{' {
        spec_map(s, j)
    } else if s[j] == '#' {
        spec_set(s, j)
    } else {
        None
    }
}

/// Zero or more elements of a container: empty only when no value and no
/// delimiter could start here at all; otherwise a first value followed by
/// further delimiter-separated values.
pub open spec fn spec_elems(s: Seq<char>, i: int) -> Option<(Seq<Node>, int)>
    decreases s.len() - i, 3int,
{
    if delim_run(s, i) == 0 && !starts_value(s, i) {
        Some((Seq::empty(), i))
    } else {
        match spec_value(s, i) {
            Some((v, p)) => if i < p <= s.len() {
                match spec_more_elems(s, p) {
                    Some((vs, q)) => Some((seq![v] + vs, q)),
                    None => None,
                }
            } else {
                None
            },
            None => None,
        }
    }
}

/// Further elements, each preceded by one or more delimiter tokens.  Stops
/// cleanly before a closing bracket; once a separator is consumed, another
/// value must follow.  The position bound checks on each sub-parse mirror
/// the fact that every production consumes at least one character and stays
/// within the input; they make termination of the mutually recursive
/// definitions evident, and the parsing functions of [`crate::reader`] prove
/// them satisfied on every successful parse.
pub open spec fn spec_more_elems(s: Seq<char>, p: int) -> Option<(Seq<Node>, int)>
    decreases s.len() - p, 3int,
{
    let d = delim_run(s, p);
    if d == 0 {
        Some((Seq::empty(), p))
    } else if p + d > s.len() {
        None
    } else {
        match spec_value(s, p + d) {
            Some((v, p2)) => if p + d < p2 <= s.len() {
                match spec_more_elems(s, p2) {
                    Some((vs, q)) => Some((seq![v] + vs, q)),
                    None => None,
                }
            } else {
                None
            },
            None => None,
        }
    }
}

/// One key-value pair: a value, one or more delimiter tokens, one more
/// value.
pub open spec fn spec_pair(s: Seq<char>, i: int) -> Option<((Node, Node), int)>
    decreases s.len() - i, 2int,
{
    match spec_value(s, i) {
        Some((k, p)) => if i < p <= s.len() {
            let d = delim_run(s, p);
            if d == 0 {
                None
            } else if p + d > s.len() {
                None
            } else {
                match spec_value(s, p + d) {
                    Some((v, p2)) => if p + d < p2 <= s.len() {
                        Some(((k, v), p2))
                    } else {
                        None
                    },
                    None => None,
                }
            }
        } else {
            None
        },
        None => None,
    }
}

/// Zero or more key-value pairs of a map body.
pub open spec fn spec_pairs(s: Seq<char>, i: int) -> Option<(Seq<(Node, Node)>, int)>
    decreases s.len() - i, 3int,
{
    if delim_run(s, i) == 0 && !starts_value(s, i) {
        Some((Seq::empty(), i))
    } else {
        match spec_pair(s, i) {
            Some((pr, p)) => if i < p <= s.len() {
                match spec_more_pairs(s, p) {
                    Some((ps, q)) => Some((seq![pr] + ps, q)),
                    None => None,
                }
            } else {
                None
            },
            None => None,
        }
    }
}

/// Further key-value pairs, each preceded by one or more delimiter tokens.
pub open spec fn spec_more_pairs(s: Seq<char>, p: int) -> Option<(Seq<(Node, Node)>, int)>
    decreases s.len() - p, 3int,
{
    let d = delim_run(s, p);
    if d == 0 {
        Some((Seq::empty(), p))
    } else if p + d > s.len() {
        None
    } else {
        match spec_pair(s, p + d) {
            Some((pr, p2)) => if p + d < p2 <= s.len() {
                match spec_more_pairs(s, p2) {
                    Some((ps, q)) => Some((seq![pr] + ps, q)),
                    None => None,
                }
            } else {
                None
            },
            None => None,
        }
    }
}


/// The mathematical shapes of a sequence of trees, element by element.
pub open spec fn models_of(v: Seq<Edn>) -> Seq<Node> {
    Seq::new(v.len(), |k: int| v[k].model())
}

/// The mathematical shapes of a sequence of tree pairs, entry by entry.
pub open spec fn models_of_pairs(v: Seq<(Edn, Edn)>) -> Seq<(Node, Node)> {
    Seq::new(v.len(), |k: int| (v[k].0.model(), v[k].1.model()))
}

/// The shape of a list is the shape of its elements.
pub proof fn lemma_list_model(v: Vec<Edn>)
    ensures
        (Edn::List(v)).model() == Node::List(models_of(v@)),
{
    let m = (Edn::List(v)).model();
    if let Node::List(ns) = m {
        assert(ns =~= models_of(v@));
    }
}

/// The shape of a vector is the shape of its elements.
pub proof fn lemma_vector_model(v: Vec<Edn>)
    ensures
        (Edn::Vector(v)).model() == Node::Vector(models_of(v@)),
{
    let m = (Edn::Vector(v)).model();
    if let Node::Vector(ns) = m {
        assert(ns =~= models_of(v@));
    }
}

/// The shape of a map is the shape of its entries.
pub proof fn lemma_map_model(x: crate::value::BasicSet<(Edn, Edn)>)
    ensures
        (Edn::EMap(x)).model() == Node::EMap(models_of_pairs(x.elements@)),
{
    let m = (Edn::EMap(x)).model();
    if let Node::EMap(ns) = m {
        assert(ns =~= models_of_pairs(x.elements@));
    }
}

/// The shape of a set is the shape of its elements.
pub proof fn lemma_set_model(x: crate::value::BasicSet<Edn>)
    ensures
        (Edn::ESet(x)).model() == Node::ESet(models_of(x.elements@)),
{
    let m = (Edn::ESet(x)).model();
    if let Node::ESet(ns) = m {
        assert(ns =~= models_of(x.elements@));
    }
}

/// What the whole input reads as: the top-level production applied once at
/// the start, any unconsumed trailing input ignored.
pub open spec fn spec_read(s: Seq<char>) -> Option<Node> {
    match spec_value(s, 0) {
        Some((v, _)) => Some(v),
        None => None,
    }
}

/// The shape of a leaf is its content.
pub proof fn lemma_basic_model(b: BasicElement)
    ensures
        (Edn::Basic(b)).model() == (match b {
            BasicElement::Nil => Node::Nil,
            BasicElement::Boolean(x) => Node::Bool(x),
            BasicElement::EString(s) => Node::Str(s@),
            BasicElement::Character(c) => Node::Char(c),
            BasicElement::Symbol(s) => Node::Sym(s@),
            BasicElement::Keyword(s) => Node::Key(s@),
            BasicElement::Integer(n) => Node::Int(n),
        }),
{
}

} // verus!
