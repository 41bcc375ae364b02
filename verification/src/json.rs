//! The wire text format of the protocol: a JSON value model, a
//! canonical encoder, and a tolerant parser.
//!
//! Every message on the wire is one line holding one JSON value. The
//! encoder produces the canonical form (no inter-token whitespace, keys
//! in a fixed order, control characters escaped); the parser accepts
//! the tolerant form a peer may send: any inter-token whitespace, any
//! key order, the full set of string escapes, and integer numbers.
//! Numbers with a fraction or an exponent, and lone surrogate escapes,
//! are rejected; a rejected line is skipped by the listener, so either
//! costs one line, never the session.

use vstd::prelude::*;

verus! {

/// A parsed JSON value. String contents are stored decoded (escapes
/// already resolved); integers must fit an `i64`, as the protocol uses
/// no wider numbers.
#[derive(Debug, PartialEq)]
pub enum Json {
    Null,
    Bool(bool),
    Int(i64),
    Str(String),
    Arr(Vec<Json>),
    Obj(Vec<(String, Json)>),
}

/// The mathematical counterpart of [`Json`], which all contracts speak
/// about.
pub enum JVal {
    Null,
    Bool(bool),
    Int(i64),
    Str(Seq<char>),
    Arr(Seq<JVal>),
    Obj(Seq<(Seq<char>, JVal)>),
}

/// The value a [`Json`] tree stands for.
pub open spec fn jview(j: Json) -> JVal
    decreases j,
{
    match j {
        Json::Null => JVal::Null,
        Json::Bool(b) => JVal::Bool(b),
        Json::Int(n) => JVal::Int(n),
        Json::Str(s) => JVal::Str(s@),
        Json::Arr(items) => JVal::Arr(jview_items(items@)),
        Json::Obj(members) => JVal::Obj(jview_members(members@)),
    }
}

pub open spec fn jview_items(items: Seq<Json>) -> Seq<JVal>
    decreases items,
{
    if items.len() == 0 {
        Seq::empty()
    } else {
        seq![jview(items[0])] + jview_items(items.drop_first())
    }
}

pub open spec fn jview_members(members: Seq<(String, Json)>) -> Seq<(Seq<char>, JVal)>
    decreases members,
{
    if members.len() == 0 {
        Seq::empty()
    } else {
        seq![(members[0].0@, jview(members[0].1))] + jview_members(members.drop_first())
    }
}

impl View for Json {
    type V = JVal;

    open spec fn view(&self) -> JVal {
        jview(*self)
    }
}

/// The first value bound to a key in an object's member list; later
/// duplicates of a key are shadowed.
pub open spec fn obj_lookup(members: Seq<(Seq<char>, JVal)>, key: Seq<char>) -> Option<JVal>
    decreases members.len(),
{
    if members.len() == 0 {
        None
    } else if members[0].0 == key {
        Some(members[0].1)
    } else {
        obj_lookup(members.drop_first(), key)
    }
}

// ------------------------------------------------------------------
// Canonical encoding
// ------------------------------------------------------------------
/// The digit character for a value between zero and nine.
pub open spec fn digit_char(n: int) -> char {
    (('0' as u8) + n as u8) as char
}

/// The lowercase hex digit character for a value between zero and fifteen.
pub open spec fn hex_digit_char(n: int) -> char {
    if n < 10 {
        (('0' as u8) + n as u8) as char
    } else {
        (('a' as u8) + (n - 10) as u8) as char
    }
}

/// Decimal digits of a non-negative integer, most significant first.
pub open spec fn dec_u(n: int) -> Seq<char>
    recommends
        n >= 0,
    decreases n,
{
    if n < 10 {
        seq![digit_char(n)]
    } else {
        dec_u(n / 10).push(digit_char(n % 10))
    }
}

/// Decimal digits of an integer, with a leading minus sign if negative.
pub open spec fn dec_i(n: int) -> Seq<char> {
    if n < 0 {
        seq!['-'] + dec_u(-n)
    } else {
        dec_u(n)
    }
}

/// The canonical escape of one string character: quote, backslash and
/// the named control characters get a two-character escape, other
/// control characters a `\u00XX` escape, everything else stands as is.
pub open spec fn esc_char(c: char) -> Seq<char> {
    if c == '"' {
        seq!['\\', '"']
    } else if c == '\\' {
        seq!['\\', '\\']
    } else if c == '\n' {
        seq!['\\', 'n']
    } else if c == '\r' {
        seq!['\\', 'r']
    } else if c == '\t' {
        seq!['\\', 't']
    } else if (c as u32) < 32 {
        seq!['\\', 'u', '0', '0', hex_digit_char((c as u32) as int / 16), hex_digit_char((c as u32) as int % 16)]
    } else {
        seq![c]
    }
}

/// The canonical escape of string contents.
pub open spec fn esc(s: Seq<char>) -> Seq<char>
    decreases s.len(),
{
    if s.len() == 0 {
        Seq::empty()
    } else {
        esc_char(s[0]) + esc(s.drop_first())
    }
}

/// The canonical one-line encoding of a value: no inter-token
/// whitespace, object keys in the order given.
pub open spec fn jencode(v: JVal) -> Seq<char>
    decreases v,
{
    match v {
        JVal::Null => "null"@,
        JVal::Bool(b) => if b {
            "true"@
        } else {
            "false"@
        },
        JVal::Int(n) => dec_i(n as int),
        JVal::Str(s) => seq!['"'] + esc(s) + seq!['"'],
        JVal::Arr(items) => seq!['['] + jencode_items(items) + seq![']'],
        JVal::Obj(members) => seq!['{'] + jencode_members(members) + seq!['}'],
    }
}

pub open spec fn jencode_items(items: Seq<JVal>) -> Seq<char>
    decreases items,
{
    if items.len() == 0 {
        Seq::empty()
    } else if items.len() == 1 {
        jencode(items[0])
    } else {
        jencode(items[0]) + seq![','] + jencode_items(items.drop_first())
    }
}

pub open spec fn jencode_members(members: Seq<(Seq<char>, JVal)>) -> Seq<char>
    decreases members,
{
    if members.len() == 0 {
        Seq::empty()
    } else if members.len() == 1 {
        seq!['"'] + esc(members[0].0) + seq!['"', ':'] + jencode(members[0].1)
    } else {
        seq!['"'] + esc(members[0].0) + seq!['"', ':'] + jencode(members[0].1) + seq![',']
            + jencode_members(members.drop_first())
    }
}

// ------------------------------------------------------------------
// Tolerant parsing
// ------------------------------------------------------------------
/// JSON inter-token whitespace.
pub open spec fn is_ws(c: char) -> bool {
    c == ' ' || c == '\n' || c == '\t' || c == '\r'
}

/// The first position at or after `i` holding no whitespace.
pub open spec fn skip_ws(s: Seq<char>, i: int) -> int
    decreases s.len() - i,
{
    if 0 <= i < s.len() && is_ws(s[i]) {
        skip_ws(s, i + 1)
    } else {
        i
    }
}

/// The numeric value of a decimal digit character.
pub open spec fn digit_val(c: char) -> Option<int> {
    if '0' <= c && c <= '9' {
        Some(c as int - '0' as int)
    } else {
        None
    }
}

/// The numeric value of a hex digit character, either case.
pub open spec fn hex_val(c: char) -> Option<int> {
    if '0' <= c && c <= '9' {
        Some(c as int - '0' as int)
    } else if 'a' <= c && c <= 'f' {
        Some(10 + c as int - 'a' as int)
    } else if 'A' <= c && c <= 'F' {
        Some(10 + c as int - 'A' as int)
    } else {
        None
    }
}

/// The character a two-character escape stands for.
pub open spec fn esc_short(c: char) -> Option<char> {
    if c == '"' {
        Some('"')
    } else if c == '\\' {
        Some('\\')
    } else if c == '/' {
        Some('/')
    } else if c == 'b' {
        Some('\u{8}')
    } else if c == 'f' {
        Some('\u{c}')
    } else if c == 'n' {
        Some('\n')
    } else if c == 'r' {
        Some('\r')
    } else if c == 't' {
        Some('\t')
    } else {
        None
    }
}

/// Parses string contents from just after the opening quote up to and
/// over the closing quote; yields the decoded contents and the position
/// after the closing quote. Unescaped control characters and surrogate
/// escapes fail the parse.
pub open spec fn pstring(s: Seq<char>, i: int) -> Option<(Seq<char>, int)>
    decreases s.len() - i,
{
    if !(0 <= i < s.len()) {
        None
    } else {
        let c = s[i];
        if c == '"' {
            Some((Seq::empty(), i + 1))
        } else if c == '\\' {
            if i + 1 < s.len() {
                let e = s[i + 1];
                if e == 'u' {
                    if i + 5 < s.len() {
                        if hex_val(s[i + 2]) is Some && hex_val(s[i + 3]) is Some && hex_val(
                            s[i + 4],
                        ) is Some && hex_val(s[i + 5]) is Some {
                            let code = hex_val(s[i + 2])->0 * 4096 + hex_val(s[i + 3])->0 * 256
                                + hex_val(s[i + 4])->0 * 16 + hex_val(s[i + 5])->0;
                            if 0xD800 <= code < 0xE000 {
                                None
                            } else {
                                match pstring(s, i + 6) {
                                    Some((rest, j)) => Some(
                                        (seq![((code as u32) as char)] + rest, j),
                                    ),
                                    None => None,
                                }
                            }
                        } else {
                            None
                        }
                    } else {
                        None
                    }
                } else {
                    match esc_short(e) {
                        Some(d) => match pstring(s, i + 2) {
                            Some((rest, j)) => Some((seq![d] + rest, j)),
                            None => None,
                        },
                        None => None,
                    }
                }
            } else {
                None
            }
        } else if (c as u32) < 32 {
            None
        } else {
            match pstring(s, i + 1) {
                Some((rest, j)) => Some((seq![c] + rest, j)),
                None => None,
            }
        }
    }
}

/// Largest magnitude a parsed negative number may have.
pub open spec fn neg_limit() -> int {
    0x8000_0000_0000_0000
}

/// Largest value a parsed positive number may have.
pub open spec fn pos_limit() -> int {
    0x7FFF_FFFF_FFFF_FFFF
}

/// Accumulates decimal digits starting at `i`; fails once the value
/// passes `limit`, stops at the first non-digit.
pub open spec fn pdigits(s: Seq<char>, i: int, acc: int, limit: int) -> Option<(int, int)>
    decreases s.len() - i,
{
    if 0 <= i < s.len() && digit_val(s[i]) is Some {
        let acc2 = acc * 10 + digit_val(s[i])->0;
        if acc2 > limit {
            None
        } else {
            pdigits(s, i + 1, acc2, limit)
        }
    } else {
        Some((acc, i))
    }
}

/// Parses an integer number at `i`: an optional minus sign and at least
/// one digit; the value must fit a 64-bit signed integer.
pub open spec fn pnumber(s: Seq<char>, i: int) -> Option<(int, int)> {
    if 0 <= i < s.len() && s[i] == '-' {
        if i + 1 < s.len() && digit_val(s[i + 1]) is Some {
            match pdigits(s, i + 1, 0, neg_limit()) {
                Some((m, j)) => Some((-m, j)),
                None => None,
            }
        } else {
            None
        }
    } else if 0 <= i < s.len() && digit_val(s[i]) is Some {
        pdigits(s, i, 0, pos_limit())
    } else {
        None
    }
}

/// Whether a character right after a parsed number would extend it into
/// a non-integer number form.
pub open spec fn extends_number(c: char) -> bool {
    digit_val(c) is Some || c == '.' || c == 'e' || c == 'E'
}

/// Parses one value at `i`, leading whitespace allowed; yields the
/// value and the position just after it. The fuel bounds recursion; the
/// entry point hands in enough for any input it accepts.
pub open spec fn pval(s: Seq<char>, i: int, fuel: nat) -> Option<(JVal, int)>
    decreases fuel,
{
    if fuel == 0 {
        None
    } else {
        let i0 = skip_ws(s, i);
        if !(0 <= i0 < s.len()) {
            None
        } else {
            let c = s[i0];
            if c == 'n' {
                if i0 + 3 < s.len() && s[i0 + 1] == 'u' && s[i0 + 2] == 'l' && s[i0 + 3] == 'l' {
                    Some((JVal::Null, i0 + 4))
                } else {
                    None
                }
            } else if c == 't' {
                if i0 + 3 < s.len() && s[i0 + 1] == 'r' && s[i0 + 2] == 'u' && s[i0 + 3] == 'e' {
                    Some((JVal::Bool(true), i0 + 4))
                } else {
                    None
                }
            } else if c == 'f' {
                if i0 + 4 < s.len() && s[i0 + 1] == 'a' && s[i0 + 2] == 'l' && s[i0 + 3] == 's'
                    && s[i0 + 4] == 'e' {
                    Some((JVal::Bool(false), i0 + 5))
                } else {
                    None
                }
            } else if c == '"' {
                match pstring(s, i0 + 1) {
                    Some((cs, j)) => Some((JVal::Str(cs), j)),
                    None => None,
                }
            } else if c == '[' {
                let i1 = skip_ws(s, i0 + 1);
                if 0 <= i1 < s.len() && s[i1] == ']' {
                    Some((JVal::Arr(Seq::empty()), i1 + 1))
                } else {
                    match pelems(s, i0 + 1, (fuel - 1) as nat) {
                        Some((vs, j)) => Some((JVal::Arr(vs), j)),
                        None => None,
                    }
                }
            } else if c == '{' {
                let i1 = skip_ws(s, i0 + 1);
                if 0 <= i1 < s.len() && s[i1] == '}' {
                    Some((JVal::Obj(Seq::empty()), i1 + 1))
                } else {
                    match pmembers(s, i0 + 1, (fuel - 1) as nat) {
                        Some((ms, j)) => Some((JVal::Obj(ms), j)),
                        None => None,
                    }
                }
            } else if c == '-' || digit_val(c) is Some {
                match pnumber(s, i0) {
                    Some((n, j)) => if j < s.len() && extends_number(s[j]) {
                        None
                    } else {
                        Some((JVal::Int(n as i64), j))
                    },
                    None => None,
                }
            } else {
                None
            }
        }
    }
}

/// Parses the elements of a non-empty array from just after `[` or `,`
/// up to and over the closing `]`.
pub open spec fn pelems(s: Seq<char>, i: int, fuel: nat) -> Option<(Seq<JVal>, int)>
    decreases fuel,
{
    if fuel == 0 {
        None
    } else {
        match pval(s, i, (fuel - 1) as nat) {
            Some((v, j)) => {
                let j0 = skip_ws(s, j);
                if 0 <= j0 < s.len() && s[j0] == ',' {
                    match pelems(s, j0 + 1, (fuel - 1) as nat) {
                        Some((vs, k)) => Some((seq![v] + vs, k)),
                        None => None,
                    }
                } else if 0 <= j0 < s.len() && s[j0] == ']' {
                    Some((seq![v], j0 + 1))
                } else {
                    None
                }
            },
            None => None,
        }
    }
}

/// Parses the members of a non-empty object from just after `{` or `,`
/// up to and over the closing `}`.
pub open spec fn pmembers(s: Seq<char>, i: int, fuel: nat) -> Option<
    (Seq<(Seq<char>, JVal)>, int),
>
    decreases fuel,
{
    if fuel == 0 {
        None
    } else {
        let i0 = skip_ws(s, i);
        if 0 <= i0 < s.len() && s[i0] == '"' {
            match pstring(s, i0 + 1) {
                Some((key, j)) => {
                    let j0 = skip_ws(s, j);
                    if 0 <= j0 < s.len() && s[j0] == ':' {
                        match pval(s, j0 + 1, (fuel - 1) as nat) {
                            Some((v, k)) => {
                                let k0 = skip_ws(s, k);
                                if 0 <= k0 < s.len() && s[k0] == ',' {
                                    match pmembers(s, k0 + 1, (fuel - 1) as nat) {
                                        Some((ms, l)) => Some((seq![(key, v)] + ms, l)),
                                        None => None,
                                    }
                                } else if 0 <= k0 < s.len() && s[k0] == '}' {
                                    Some((seq![(key, v)], k0 + 1))
                                } else {
                                    None
                                }
                            },
                            None => None,
                        }
                    } else {
                        None
                    }
                },
                None => None,
            }
        } else {
            None
        }
    }
}

/// Fuel that suffices for any accepted line: parsing consumes at least
/// one character for every two recursion steps.
pub open spec fn parse_fuel(s: Seq<char>) -> nat {
    (2 * s.len() + 4) as nat
}

/// What parsing a whole line yields: one value, with nothing but
/// whitespace around it.
pub open spec fn parse_json_spec(s: Seq<char>) -> Option<JVal> {
    match pval(s, 0, parse_fuel(s)) {
        Some((v, j)) => if skip_ws(s, j) == s.len() {
            Some(v)
        } else {
            None
        },
        None => None,
    }
}

// ------------------------------------------------------------------
// The values a tree of `Json` nodes stands for, element by element
// ------------------------------------------------------------------
pub proof fn lemma_jview_items_props(items: Seq<Json>)
    ensures
        jview_items(items).len() == items.len(),
        forall|i: int| 0 <= i < items.len() ==> jview_items(items)[i] == jview(items[i]),
    decreases items.len(),
{
    if items.len() > 0 {
        lemma_jview_items_props(items.drop_first());
    }
}

pub proof fn lemma_jview_members_props(members: Seq<(String, Json)>)
    ensures
        jview_members(members).len() == members.len(),
        forall|i: int|
            0 <= i < members.len() ==> jview_members(members)[i] == (
            members[i].0@,
            jview(members[i].1),
            ),
    decreases members.len(),
{
    if members.len() > 0 {
        lemma_jview_members_props(members.drop_first());
    }
}

// ------------------------------------------------------------------
// Bridges to the standard library
// ------------------------------------------------------------------
/// Relies on `String`'s `FromIterator<char>`: collecting an iterator of
/// characters builds the string holding exactly those characters in order.
#[verifier::external_body]
pub(crate) fn chars_to_string(v: &Vec<char>) -> (s: String)
    ensures
        s@ == v@,
{
    v.iter().collect()
}

/// Relies on `char::from_u32`: a value converts exactly when it is a
/// Unicode scalar value (not a surrogate, at most 0x10FFFF), and the
/// resulting character has that value.
#[verifier::external_body]
fn char_from_code(u: u32) -> (r: Option<char>)
    ensures
        r is Some <==> (u < 0xD800 || (0xE000 <= u && u <= 0x10FFFF)),
        r matches Some(c) ==> c as u32 == u,
{
    char::from_u32(u)
}

/// The characters of a string slice, as a vector.
pub fn str_to_chars(s: &str) -> (v: Vec<char>)
    ensures
        v@ == s@,
{
    let n = s.unicode_len();
    let mut v: Vec<char> = Vec::new();
    let mut i: usize = 0;
    while i < n
        invariant
            i <= n,
            n == s@.len(),
            v@ == s@.take(i as int),
        decreases n - i,
    {
        v.push(s.get_char(i));
        i += 1;
        proof {
            assert(s@.take(i as int) =~= s@.take(i - 1).push(s@[i - 1]));
        }
    }
    proof {
        assert(s@.take(n as int) =~= s@);
    }
    v
}

// ------------------------------------------------------------------
// The executable parser, one function per spec function
// ------------------------------------------------------------------
fn xskip_ws(s: &Vec<char>, i: usize) -> (r: usize)
    requires
        i <= s@.len(),
    ensures
        r == skip_ws(s@, i as int),
        i <= r <= s@.len(),
{
    let mut j = i;
    while j < s.len() && (s[j] == ' ' || s[j] == '\n' || s[j] == '\t' || s[j] == '\r')
        invariant
            i <= j <= s@.len(),
            skip_ws(s@, i as int) == skip_ws(s@, j as int),
        decreases s@.len() - j,
    {
        proof {
            assert(skip_ws(s@, j as int) == skip_ws(s@, j + 1));
        }
        j += 1;
    }
    j
}

fn hexv(c: char) -> (r: Option<u32>)
    ensures
        (match r {
            Some(v) => hex_val(c) == Some(v as int) && v < 16,
            None => hex_val(c) is None,
        }),
{
    if '0' <= c && c <= '9' {
        Some((c as u32) - ('0' as u32))
    } else if 'a' <= c && c <= 'f' {
        Some(10 + (c as u32) - ('a' as u32))
    } else if 'A' <= c && c <= 'F' {
        Some(10 + (c as u32) - ('A' as u32))
    } else {
        None
    }
}

fn esc_short_x(c: char) -> (r: Option<char>)
    ensures
        r == esc_short(c),
{
    if c == '"' {
        Some('"')
    } else if c == '\\' {
        Some('\\')
    } else if c == '/' {
        Some('/')
    } else if c == 'b' {
        Some('\u{8}')
    } else if c == 'f' {
        Some('\u{c}')
    } else if c == 'n' {
        Some('\n')
    } else if c == 'r' {
        Some('\r')
    } else if c == 't' {
        Some('\t')
    } else {
        None
    }
}

fn xstring(s: &Vec<char>, i: usize) -> (r: Option<(Vec<char>, usize)>)
    requires
        i <= s@.len(),
    ensures
        (match r {
            Some(p) => pstring(s@, i as int) == Some((p.0@, p.1 as int)) && i <= p.1 <= s@.len(),
            None => pstring(s@, i as int) is None,
        }),
    decreases s@.len() - i,
{
    if i >= s.len() {
        return None;
    }
    let c = s[i];
    if c == '"' {
        Some((Vec::new(), i + 1))
    } else if c == '\\' {
        if i + 1 < s.len() {
            let e = s[i + 1];
            if e == 'u' {
                if s.len() - i > 5 {
                    let h1 = hexv(s[i + 2]);
                    let h2 = hexv(s[i + 3]);
                    let h3 = hexv(s[i + 4]);
                    let h4 = hexv(s[i + 5]);
                    match (h1, h2, h3, h4) {
                        (Some(v1), Some(v2), Some(v3), Some(v4)) => {
                            let code: u32 = v1 * 4096 + v2 * 256 + v3 * 16 + v4;
                            if 0xD800 <= code && code < 0xE000 {
                                None
                            } else {
                                match xstring(s, i + 6) {
                                    Some((mut cs, j)) => {
                                        match char_from_code(code) {
                                            Some(ch) => {
                                                let ghost prev = cs@;
                                                cs.insert(0, ch);
                                                proof {
                                                    vstd::utf8::char_u32_cast(ch, code);
                                                    assert(cs@.drop_first() =~= prev);
                                                    assert(cs@ =~= seq![((code as u32) as char)]
                                                        + prev);
                                                }
                                                Some((cs, j))
                                            },
                                            None => {
                                                proof {
                                                    assert(false);
                                                }
                                                None
                                            },
                                        }
                                    },
                                    None => None,
                                }
                            }
                        },
                        _ => None,
                    }
                } else {
                    None
                }
            } else {
                match esc_short_x(e) {
                    Some(d) => match xstring(s, i + 2) {
                        Some((mut cs, j)) => {
                            let ghost prev = cs@;
                            cs.insert(0, d);
                            proof {
                                assert(cs@ =~= seq![d] + prev);
                            }
                            Some((cs, j))
                        },
                        None => None,
                    },
                    None => None,
                }
            }
        } else {
            None
        }
    } else if (c as u32) < 32 {
        None
    } else {
        match xstring(s, i + 1) {
            Some((mut cs, j)) => {
                let ghost prev = cs@;
                cs.insert(0, c);
                proof {
                    assert(cs@ =~= seq![c] + prev);
                }
                Some((cs, j))
            },
            None => None,
        }
    }
}

fn xdigits(s: &Vec<char>, i: usize, acc: u128, limit: u64) -> (r: Option<(u64, usize)>)
    requires
        i <= s@.len(),
        acc <= limit as u128,
    ensures
        (match r {
            Some(p) => pdigits(s@, i as int, acc as int, limit as int) == Some(
                (p.0 as int, p.1 as int),
            ) && i <= p.1 <= s@.len() && p.0 <= limit,
            None => pdigits(s@, i as int, acc as int, limit as int) is None,
        }),
    decreases s@.len() - i,
{
    if i < s.len() && '0' <= s[i] && s[i] <= '9' {
        let d: u32 = (s[i] as u32) - ('0' as u32);
        let acc2: u128 = acc * 10 + (d as u128);
        if acc2 > limit as u128 {
            None
        } else {
            xdigits(s, i + 1, acc2, limit)
        }
    } else {
        Some((acc as u64, i))
    }
}

fn xnumber(s: &Vec<char>, i: usize) -> (r: Option<(i64, usize)>)
    requires
        i <= s@.len(),
    ensures
        (match r {
            Some(p) => pnumber(s@, i as int) == Some((p.0 as int, p.1 as int)) && i <= p.1
                <= s@.len(),
            None => pnumber(s@, i as int) is None,
        }),
{
    if i < s.len() && s[i] == '-' {
        if i + 1 < s.len() && '0' <= s[i + 1] && s[i + 1] <= '9' {
            match xdigits(s, i + 1, 0, 9223372036854775808u64) {
                Some((m, j)) => {
                    let n: i64 = if m == 9223372036854775808u64 {
                        i64::MIN
                    } else {
                        -(m as i64)
                    };
                    Some((n, j))
                },
                None => None,
            }
        } else {
            None
        }
    } else if i < s.len() && '0' <= s[i] && s[i] <= '9' {
        match xdigits(s, i, 0, 9223372036854775807u64) {
            Some((m, j)) => Some((m as i64, j)),
            None => None,
        }
    } else {
        None
    }
}

fn xvalue(s: &Vec<char>, i: usize, fuel: u128) -> (r: Option<(Json, usize)>)
    requires
        i <= s@.len(),
    ensures
        (match r {
            Some(p) => pval(s@, i as int, fuel as nat) == Some((p.0@, p.1 as int)) && i <= p.1
                <= s@.len(),
            None => pval(s@, i as int, fuel as nat) is None,
        }),
    decreases fuel,
{
    if fuel == 0 {
        return None;
    }
    let i0 = xskip_ws(s, i);
    if i0 == s.len() {
        return None;
    }
    let c = s[i0];
    if c == 'n' {
        if s.len() - i0 >= 4 && s[i0 + 1] == 'u' && s[i0 + 2] == 'l' && s[i0 + 3] == 'l' {
            Some((Json::Null, i0 + 4))
        } else {
            None
        }
    } else if c == 't' {
        if s.len() - i0 >= 4 && s[i0 + 1] == 'r' && s[i0 + 2] == 'u' && s[i0 + 3] == 'e' {
            Some((Json::Bool(true), i0 + 4))
        } else {
            None
        }
    } else if c == 'f' {
        if s.len() - i0 >= 5 && s[i0 + 1] == 'a' && s[i0 + 2] == 'l' && s[i0 + 3] == 's' && s[i0
            + 4] == 'e' {
            Some((Json::Bool(false), i0 + 5))
        } else {
            None
        }
    } else if c == '"' {
        match xstring(s, i0 + 1) {
            Some((cs, j)) => {
                let st = chars_to_string(&cs);
                Some((Json::Str(st), j))
            },
            None => None,
        }
    } else if c == '[' {
        let i1 = xskip_ws(s, i0 + 1);
        if i1 < s.len() && s[i1] == ']' {
            proof {
                assert(jview_items(Seq::<Json>::empty()) =~= Seq::<JVal>::empty());
            }
            Some((Json::Arr(Vec::new()), i1 + 1))
        } else {
            match xelems(s, i0 + 1, fuel - 1) {
                Some((vs, j)) => Some((Json::Arr(vs), j)),
                None => None,
            }
        }
    } else if c == '{' {
        let i1 = xskip_ws(s, i0 + 1);
        if i1 < s.len() && s[i1] == '}' {
            proof {
                assert(jview_members(Seq::<(String, Json)>::empty()) =~= Seq::<
                    (Seq<char>, JVal),
                >::empty());
            }
            Some((Json::Obj(Vec::new()), i1 + 1))
        } else {
            match xmembers(s, i0 + 1, fuel - 1) {
                Some((ms, j)) => Some((Json::Obj(ms), j)),
                None => None,
            }
        }
    } else if c == '-' || ('0' <= c && c <= '9') {
        match xnumber(s, i0) {
            Some((n, j)) => {
                if j < s.len() && (('0' <= s[j] && s[j] <= '9') || s[j] == '.' || s[j] == 'e'
                    || s[j] == 'E') {
                    None
                } else {
                    Some((Json::Int(n), j))
                }
            },
            None => None,
        }
    } else {
        None
    }
}

fn xelems(s: &Vec<char>, i: usize, fuel: u128) -> (r: Option<(Vec<Json>, usize)>)
    requires
        i <= s@.len(),
    ensures
        (match r {
            Some(p) => pelems(s@, i as int, fuel as nat) == Some((jview_items(p.0@), p.1 as int))
                && i <= p.1 <= s@.len(),
            None => pelems(s@, i as int, fuel as nat) is None,
        }),
    decreases fuel,
{
    if fuel == 0 {
        return None;
    }
    match xvalue(s, i, fuel - 1) {
        Some((v, j)) => {
            let j0 = xskip_ws(s, j);
            if j0 < s.len() && s[j0] == ',' {
                match xelems(s, j0 + 1, fuel - 1) {
                    Some((mut vs, k)) => {
                        let ghost prev = vs@;
                        let ghost vv = v@;
                        vs.insert(0, v);
                        proof {
                            assert(vs@.drop_first() =~= prev);
                            assert(jview_items(vs@) =~= seq![vv] + jview_items(prev));
                        }
                        Some((vs, k))
                    },
                    None => None,
                }
            } else if j0 < s.len() && s[j0] == ']' {
                let ghost vv = v@;
                let mut vs: Vec<Json> = Vec::new();
                vs.push(v);
                proof {
                    assert(vs@.drop_first() =~= Seq::<Json>::empty());
                    assert(jview_items(Seq::<Json>::empty()) =~= Seq::<JVal>::empty());
                    assert(jview_items(vs@) =~= seq![vv]);
                }
                Some((vs, j0 + 1))
            } else {
                None
            }
        },
        None => None,
    }
}

fn xmembers(s: &Vec<char>, i: usize, fuel: u128) -> (r: Option<(Vec<(String, Json)>, usize)>)
    requires
        i <= s@.len(),
    ensures
        (match r {
            Some(p) => pmembers(s@, i as int, fuel as nat) == Some(
                (jview_members(p.0@), p.1 as int),
            ) && i <= p.1 <= s@.len(),
            None => pmembers(s@, i as int, fuel as nat) is None,
        }),
    decreases fuel,
{
    if fuel == 0 {
        return None;
    }
    let i0 = xskip_ws(s, i);
    if i0 < s.len() && s[i0] == '"' {
        match xstring(s, i0 + 1) {
            Some((kcs, j)) => {
                let key = chars_to_string(&kcs);
                let j0 = xskip_ws(s, j);
                if j0 < s.len() && s[j0] == ':' {
                    match xvalue(s, j0 + 1, fuel - 1) {
                        Some((v, k)) => {
                            let k0 = xskip_ws(s, k);
                            if k0 < s.len() && s[k0] == ',' {
                                match xmembers(s, k0 + 1, fuel - 1) {
                                    Some((mut ms, l)) => {
                                        let ghost prev = ms@;
                                        let ghost kv = (key@, v@);
                                        ms.insert(0, (key, v));
                                        proof {
                                            assert(ms@.drop_first() =~= prev);
                                            assert(jview_members(ms@) =~= seq![kv]
                                                + jview_members(prev));
                                        }
                                        Some((ms, l))
                                    },
                                    None => None,
                                }
                            } else if k0 < s.len() && s[k0] == '}' {
                                let ghost kv = (key@, v@);
                                let mut ms: Vec<(String, Json)> = Vec::new();
                                ms.push((key, v));
                                proof {
                                    assert(ms@.drop_first() =~= Seq::<(String, Json)>::empty());
                                    assert(jview_members(Seq::<(String, Json)>::empty()) =~= Seq::<
                                        (Seq<char>, JVal),
                                    >::empty());
                                    assert(jview_members(ms@) =~= seq![kv]);
                                }
                                Some((ms, k0 + 1))
                            } else {
                                None
                            }
                        },
                        None => None,
                    }
                } else {
                    None
                }
            },
            None => None,
        }
    } else {
        None
    }
}

/// Parses one line of text as a JSON value; fails exactly when the
/// tolerant grammar rejects the line.
pub fn parse_json(line: &str) -> (r: Option<Json>)
    ensures
        (match r {
            Some(j) => parse_json_spec(line@) == Some(j@),
            None => parse_json_spec(line@) is None,
        }),
{
    let chars = str_to_chars(line);
    let fuel: u128 = 2 * (chars.len() as u128) + 4;
    proof {
        assert(fuel as nat == parse_fuel(line@));
    }
    match xvalue(&chars, 0, fuel) {
        Some((v, j)) => {
            let j2 = xskip_ws(&chars, j);
            if j2 == chars.len() {
                Some(v)
            } else {
                None
            }
        },
        None => None,
    }
}

// ------------------------------------------------------------------
// The executable encoder
// ------------------------------------------------------------------
fn digit_x(n: u32) -> (r: char)
    requires
        n < 10,
    ensures
        r == digit_char(n as int),
{
    (('0' as u8) + (n as u8)) as char
}

fn hex_digit_x(n: u32) -> (r: char)
    requires
        n < 16,
    ensures
        r == hex_digit_char(n as int),
{
    if n < 10 {
        (('0' as u8) + (n as u8)) as char
    } else {
        (('a' as u8) + ((n - 10) as u8)) as char
    }
}

fn udec_x(m: u64) -> (out: Vec<char>)
    ensures
        out@ == dec_u(m as int),
    decreases m,
{
    if m < 10 {
        let mut v: Vec<char> = Vec::new();
        v.push(digit_x(m as u32));
        proof {
            assert(v@ =~= seq![digit_char(m as int)]);
        }
        v
    } else {
        let mut v = udec_x(m / 10);
        v.push(digit_x((m % 10) as u32));
        v
    }
}

/// The decimal digits of a 64-bit signed integer, sign included.
pub fn int_chars(n: i64) -> (out: Vec<char>)
    ensures
        out@ == dec_i(n as int),
{
    if n < 0 {
        let mag: u64 = if n == i64::MIN {
            9223372036854775808u64
        } else {
            (-n) as u64
        };
        let mut v: Vec<char> = Vec::new();
        v.push('-');
        let mut d = udec_x(mag);
        v.append(&mut d);
        proof {
            assert(v@ =~= seq!['-'] + dec_u(mag as int));
        }
        v
    } else {
        udec_x(n as u64)
    }
}

fn esc_char_x(c: char) -> (out: Vec<char>)
    ensures
        out@ == esc_char(c),
{
    let mut v: Vec<char> = Vec::new();
    if c == '"' {
        v.push('\\');
        v.push('"');
        proof {
            assert(v@ =~= esc_char(c));
        }
    } else if c == '\\' {
        v.push('\\');
        v.push('\\');
        proof {
            assert(v@ =~= esc_char(c));
        }
    } else if c == '\n' {
        v.push('\\');
        v.push('n');
        proof {
            assert(v@ =~= esc_char(c));
        }
    } else if c == '\r' {
        v.push('\\');
        v.push('r');
        proof {
            assert(v@ =~= esc_char(c));
        }
    } else if c == '\t' {
        v.push('\\');
        v.push('t');
        proof {
            assert(v@ =~= esc_char(c));
        }
    } else if (c as u32) < 32 {
        v.push('\\');
        v.push('u');
        v.push('0');
        v.push('0');
        v.push(hex_digit_x((c as u32) / 16));
        v.push(hex_digit_x((c as u32) % 16));
        proof {
            assert(v@ =~= esc_char(c));
        }
    } else {
        v.push(c);
        proof {
            assert(v@ =~= esc_char(c));
        }
    }
    v
}

fn esc_from(sc: &Vec<char>, k: usize) -> (out: Vec<char>)
    requires
        k <= sc@.len(),
    ensures
        out@ == esc(sc@.skip(k as int)),
    decreases sc@.len() - k,
{
    if k == sc.len() {
        proof {
            assert(sc@.skip(k as int) =~= Seq::<char>::empty());
        }
        Vec::new()
    } else {
        let mut out = esc_char_x(sc[k]);
        let mut rest = esc_from(sc, k + 1);
        out.append(&mut rest);
        proof {
            assert(sc@.skip(k as int)[0] == sc@[k as int]);
            assert(sc@.skip(k as int).drop_first() =~= sc@.skip(k + 1));
        }
        out
    }
}

/// The canonical encoding of a string value, quotes included.
fn string_chars(s: &str) -> (out: Vec<char>)
    ensures
        out@ == seq!['"'] + esc(s@) + seq!['"'],
{
    let sc = str_to_chars(s);
    let mut out: Vec<char> = Vec::new();
    out.push('"');
    let mut body = esc_from(&sc, 0);
    out.append(&mut body);
    out.push('"');
    proof {
        assert(sc@.skip(0) =~= s@);
        assert(out@ =~= seq!['"'] + esc(s@) + seq!['"']);
    }
    out
}

/// Writes a value in the canonical one-line form.
pub fn encode_json(j: &Json) -> (out: Vec<char>)
    ensures
        out@ == jencode(j@),
    decreases *j,
{
    match j {
        Json::Null => {
            let mut v: Vec<char> = Vec::new();
            v.push('n');
            v.push('u');
            v.push('l');
            v.push('l');
            proof {
                reveal_strlit("null");
                assert(v@ =~= "null"@);
            }
            v
        },
        Json::Bool(b) => {
            let mut v: Vec<char> = Vec::new();
            if *b {
                v.push('t');
                v.push('r');
                v.push('u');
                v.push('e');
                proof {
                    reveal_strlit("true");
                    assert(v@ =~= "true"@);
                }
            } else {
                v.push('f');
                v.push('a');
                v.push('l');
                v.push('s');
                v.push('e');
                proof {
                    reveal_strlit("false");
                    assert(v@ =~= "false"@);
                }
            }
            v
        },
        Json::Int(n) => int_chars(*n),
        Json::Str(s) => string_chars(s.as_str()),
        Json::Arr(items) => {
            let mut out: Vec<char> = Vec::new();
            out.push('[');
            if items.len() > 0 {
                proof {
                    assert(items@.skip(0) =~= items@);
                    assert(decreases_to!(*j => *items));
                    assert(decreases_to!(*items => items@));
                }
                let mut inner = encode_items_from(items, 0);
                out.append(&mut inner);
                proof {
                    assert(jview_items(items@).skip(0) =~= jview_items(items@));
                }
            } else {
                proof {
                    assert(jview_items(items@) =~= Seq::<JVal>::empty());
                }
            }
            out.push(']');
            proof {
                assert(out@ =~= seq!['['] + jencode_items(jview_items(items@)) + seq![']']);
            }
            out
        },
        Json::Obj(members) => {
            let mut out: Vec<char> = Vec::new();
            out.push('{');
            if members.len() > 0 {
                proof {
                    assert(members@.skip(0) =~= members@);
                    assert(decreases_to!(*j => *members));
                    assert(decreases_to!(*members => members@));
                }
                let mut inner = encode_members_from(members, 0);
                out.append(&mut inner);
                proof {
                    assert(jview_members(members@).skip(0) =~= jview_members(members@));
                }
            } else {
                proof {
                    assert(jview_members(members@) =~= Seq::<(Seq<char>, JVal)>::empty());
                }
            }
            out.push('}');
            proof {
                assert(out@ =~= seq!['{'] + jencode_members(jview_members(members@)) + seq!['}']);
            }
            out
        },
    }
}

fn encode_items_from(items: &Vec<Json>, k: usize) -> (out: Vec<char>)
    requires
        k < items@.len(),
    ensures
        out@ == jencode_items(jview_items(items@).skip(k as int)),
    decreases items@.skip(k as int),
{
    proof {
        lemma_jview_items_props(items@);
        assert(items@.skip(k as int)[0] == items@[k as int]);
        assert(decreases_to!(items@.skip(k as int) => items@.skip(k as int)[0]));
    }
    let n = items.len();
    let mut out = encode_json(&items[k]);
    let ghost tail = jview_items(items@).skip(k as int);
    proof {
        assert(tail[0] == jview_items(items@)[k as int]);
    }
    if k + 1 < n {
        out.push(',');
        proof {
            assert(items@.skip(k + 1) =~= items@.skip(k as int).subrange(
                1,
                items@.skip(k as int).len() as int,
            ));
            assert(decreases_to!(items@.skip(k as int) => items@.skip(k as int).subrange(
                1,
                items@.skip(k as int).len() as int,
            )));
        }
        let mut rest = encode_items_from(items, k + 1);
        out.append(&mut rest);
        proof {
            assert(tail.drop_first() =~= jview_items(items@).skip(k + 1));
            assert(out@ =~= jencode(tail[0]) + seq![','] + jencode_items(tail.drop_first()));
        }
    } else {
        proof {
            assert(tail.len() == 1);
        }
    }
    out
}

// ------------------------------------------------------------------
// The canonical encoding parses back to the value it encodes
// ------------------------------------------------------------------
/// Ten to the `k`-th power.
pub open spec fn pow10(k: nat) -> int
    decreases k,
{
    if k == 0 {
        1
    } else {
        10 * pow10((k - 1) as nat)
    }
}

proof fn lemma_digit_char_val(d: int)
    requires
        0 <= d <= 9,
    ensures
        digit_val(digit_char(d)) == Some(d),
        !is_ws(digit_char(d)),
{
}

proof fn lemma_hex_digit_char_val(d: int)
    requires
        0 <= d <= 15,
    ensures
        hex_val(hex_digit_char(d)) == Some(d),
{
}

/// Every character of a printed non-negative number is a digit.
pub proof fn lemma_dec_u_digits(n: int)
    requires
        n >= 0,
    ensures
        dec_u(n).len() >= 1,
        forall|i: int| 0 <= i < dec_u(n).len() ==> digit_val(#[trigger] dec_u(n)[i]) is Some,
    decreases n,
{
    if n < 10 {
        lemma_digit_char_val(n);
    } else {
        lemma_dec_u_digits(n / 10);
        lemma_digit_char_val(n % 10);
    }
}

/// Digit accumulation walks over a printed number: starting with `acc`
/// before the digits of `n` leaves the accumulator scaled and summed,
/// right after those digits.
proof fn lemma_pdigits_run(pre: Seq<char>, n: int, acc: int, limit: int, tail: Seq<char>)
    requires
        n >= 0,
        acc >= 0,
        acc * pow10(dec_u(n).len() as nat) + n <= limit,
    ensures
        pdigits(pre + dec_u(n) + tail, pre.len() as int, acc, limit) == pdigits(
            pre + dec_u(n) + tail,
            pre.len() + dec_u(n).len() as int,
            acc * pow10(dec_u(n).len() as nat) + n,
            limit,
        ),
    decreases n,
{
    let s = pre + dec_u(n) + tail;
    let i = pre.len() as int;
    lemma_dec_u_digits(n);
    if n < 10 {
        lemma_digit_char_val(n);
        assert(s[i] == digit_char(n));
        assert(pow10(0) == 1);
        assert(pow10(1) == 10);
        assert(acc * 10 + n <= limit);
    } else {
        lemma_dec_u_digits(n / 10);
        lemma_digit_char_val(n % 10);
        let len1 = dec_u(n / 10).len();
        let tail2 = seq![digit_char(n % 10)] + tail;
        assert(dec_u(n) =~= dec_u(n / 10) + seq![digit_char(n % 10)]);
        assert(s =~= pre + dec_u(n / 10) + tail2);
        assert(pow10((len1 + 1) as nat) == 10 * pow10(len1 as nat));
        lemma_pow10_pos(len1 as nat);
        let v1 = acc * pow10(len1 as nat) + n / 10;
        let v = acc * pow10(dec_u(n).len() as nat) + n;
        assert(v == v1 * 10 + n % 10) by (nonlinear_arith)
            requires
                v1 == acc * pow10(len1 as nat) + n / 10,
                v == acc * (10 * pow10(len1 as nat)) + n,
                n >= 10,
        ;
        assert(v1 >= 0) by (nonlinear_arith)
            requires
                acc >= 0,
                pow10(len1 as nat) >= 1,
                n >= 10,
                v1 == acc * pow10(len1 as nat) + n / 10,
        ;
        assert(v1 <= v) by (nonlinear_arith)
            requires
                v1 >= 0,
                0 <= n % 10,
                v == v1 * 10 + n % 10,
        ;
        lemma_pdigits_run(pre, n / 10, acc, limit, tail2);
        assert(s[i + len1] == digit_char(n % 10));
        assert(pdigits(s, i + len1, v1, limit) == pdigits(s, i + len1 + 1, v, limit));
    }
}

proof fn lemma_pow10_pos(k: nat)
    ensures
        pow10(k) >= 1,
    decreases k,
{
    if k > 0 {
        lemma_pow10_pos((k - 1) as nat);
    }
}

/// Digit accumulation stops at a non-digit (or the end), yielding the
/// value it carries.
proof fn lemma_pdigits_stop(s: Seq<char>, j: int, v: int, limit: int)
    requires
        0 <= j <= s.len(),
        v <= limit,
        j == s.len() || digit_val(s[j]) is None,
    ensures
        pdigits(s, j, v, limit) == Some((v, j)),
{
}

/// A printed integer parses back to itself, up to the first non-digit.
proof fn lemma_pnumber_of_dec(pre: Seq<char>, n: int, tail: Seq<char>)
    requires
        -0x8000_0000_0000_0000 <= n <= 0x7FFF_FFFF_FFFF_FFFF,
        tail.len() > 0 ==> digit_val(tail[0]) is None,
    ensures
        pnumber(pre + dec_i(n) + tail, pre.len() as int) == Some(
            (n, pre.len() + dec_i(n).len() as int),
        ),
{
    let s = pre + dec_i(n) + tail;
    let i = pre.len() as int;
    if n < 0 {
        let m = -n;
        lemma_dec_u_digits(m);
        assert(dec_i(n) =~= seq!['-'] + dec_u(m));
        assert(s[i] == '-');
        let pre2 = pre + seq!['-'];
        assert(s =~= pre2 + dec_u(m) + tail);
        assert(s[i + 1] == dec_u(m)[0]);
        assert(pow10(dec_u(m).len() as nat) >= 1) by {
            lemma_pow10_pos(dec_u(m).len() as nat);
        }
        assert(0 * pow10(dec_u(m).len() as nat) + m == m);
        lemma_pdigits_run(pre2, m, 0, neg_limit(), tail);
        assert(i + 1 + dec_u(m).len() == s.len() || digit_val(s[i + 1 + dec_u(m).len()])
            is None);
        lemma_pdigits_stop(s, i + 1 + dec_u(m).len(), m, neg_limit());
    } else {
        lemma_dec_u_digits(n);
        assert(dec_i(n) =~= dec_u(n));
        assert(s =~= pre + dec_u(n) + tail);
        assert(s[i] == dec_u(n)[0]);
        assert(pow10(dec_u(n).len() as nat) >= 1) by {
            lemma_pow10_pos(dec_u(n).len() as nat);
        }
        assert(0 * pow10(dec_u(n).len() as nat) + n == n);
        lemma_pdigits_run(pre, n, 0, pos_limit(), tail);
        assert(i + dec_u(n).len() == s.len() || digit_val(s[i + dec_u(n).len()]) is None);
        lemma_pdigits_stop(s, i + dec_u(n).len(), n, pos_limit());
    }
}

/// Escaped string contents parse back to the original contents, and
/// the parse stops right after the closing quote.
proof fn lemma_pstring_of_esc(t: Seq<char>, pre: Seq<char>, tail: Seq<char>)
    ensures
        pstring(pre + esc(t) + seq!['"'] + tail, pre.len() as int) == Some(
            (t, pre.len() + esc(t).len() as int + 1),
        ),
    decreases t.len(),
{
    let s = pre + esc(t) + seq!['"'] + tail;
    let i = pre.len() as int;
    if t.len() == 0 {
        assert(esc(t) =~= Seq::<char>::empty());
        assert(s[i] == '"');
    } else {
        let c = t[0];
        let rest = t.drop_first();
        assert(esc(t) =~= esc_char(c) + esc(rest));
        let ec = esc_char(c);
        let pre2 = pre + ec;
        assert(s =~= pre2 + esc(rest) + seq!['"'] + tail);
        lemma_pstring_of_esc(rest, pre2, tail);
        if c == '"' || c == '\\' || c == '\n' || c == '\r' || c == '\t' {
            assert(s[i] == '\\');
            assert(s[i + 1] == ec[1]);
            assert(esc_short(ec[1]) == Some(c));
            assert(seq![c] + rest =~= t);
        } else if (c as u32) < 32 {
            assert(s[i] == '\\');
            assert(s[i + 1] == 'u');
            assert(s[i + 2] == '0');
            assert(s[i + 3] == '0');
            assert(s[i + 4] == hex_digit_char((c as u32) as int / 16));
            assert(s[i + 5] == hex_digit_char((c as u32) as int % 16));
            assert(hex_val('0') == Some(0int));
            lemma_hex_digit_char_val((c as u32) as int / 16);
            lemma_hex_digit_char_val((c as u32) as int % 16);
            let code = hex_val(s[i + 2])->0 * 4096 + hex_val(s[i + 3])->0 * 256 + hex_val(
                s[i + 4],
            )->0 * 16 + hex_val(s[i + 5])->0;
            assert(code == (c as u32) as int);
            assert(!(0xD800 <= code < 0xE000));
            vstd::utf8::char_u32_cast(c, c as u32);
            assert(((code as u32) as char) == c);
            assert(seq![c] + rest =~= t);
        } else {
            assert(ec =~= seq![c]);
            assert(s[i] == c);
            assert(s[i] != '"' && s[i] != '\\');
            assert(seq![c] + rest =~= t);
        }
    }
}

fn encode_members_from(members: &Vec<(String, Json)>, k: usize) -> (out: Vec<char>)
    requires
        k < members@.len(),
    ensures
        out@ == jencode_members(jview_members(members@).skip(k as int)),
    decreases members@.skip(k as int),
{
    proof {
        lemma_jview_members_props(members@);
        assert(members@.skip(k as int)[0] == members@[k as int]);
        assert(decreases_to!(members@.skip(k as int) => members@.skip(k as int)[0]));
    }
    let mut out = string_chars(members[k].0.as_str());
    out.push(':');
    let ghost tail = jview_members(members@).skip(k as int);
    proof {
        assert(tail[0] == jview_members(members@)[k as int]);
    }
    let n = members.len();
    let mut val = encode_json(&members[k].1);
    out.append(&mut val);
    if k + 1 < n {
        out.push(',');
        proof {
            assert(members@.skip(k + 1) =~= members@.skip(k as int).subrange(
                1,
                members@.skip(k as int).len() as int,
            ));
            assert(decreases_to!(members@.skip(k as int) => members@.skip(k as int).subrange(
                1,
                members@.skip(k as int).len() as int,
            )));
        }
        let mut rest = encode_members_from(members, k + 1);
        out.append(&mut rest);
        proof {
            assert(tail.drop_first() =~= jview_members(members@).skip(k + 1));
            assert(out@ =~= seq!['"'] + esc(tail[0].0) + seq!['"', ':'] + jencode(tail[0].1)
                + seq![','] + jencode_members(tail.drop_first()));
        }
    } else {
        proof {
            assert(tail.len() == 1);
            assert(out@ =~= seq!['"'] + esc(tail[0].0) + seq!['"', ':'] + jencode(tail[0].1));
        }
    }
    out
}


pub open spec fn max_nat(a: nat, b: nat) -> nat {
    if a >= b {
        a
    } else {
        b
    }
}

/// Fuel that surely suffices to parse the canonical encoding of a
/// value: one unit per recursion step of the parser.
pub open spec fn jfuel(v: JVal) -> nat
    decreases v,
{
    match v {
        JVal::Arr(items) => if items.len() == 0 {
            1
        } else {
            1 + efuel(items)
        },
        JVal::Obj(ms) => if ms.len() == 0 {
            1
        } else {
            1 + mfuel(ms)
        },
        _ => 1,
    }
}

pub open spec fn efuel(items: Seq<JVal>) -> nat
    decreases items,
{
    if items.len() == 0 {
        1
    } else {
        1 + max_nat(jfuel(items[0]), efuel(items.drop_first()))
    }
}

pub open spec fn mfuel(ms: Seq<(Seq<char>, JVal)>) -> nat
    decreases ms,
{
    if ms.len() == 0 {
        1
    } else {
        1 + max_nat(jfuel(ms[0].1), mfuel(ms.drop_first()))
    }
}

/// A canonical encoding is non-empty and starts with a character that
/// dispatches the parser and closes nothing.
proof fn lemma_jencode_head(v: JVal)
    ensures
        jencode(v).len() >= 1,
        !is_ws(jencode(v)[0]),
        jencode(v)[0] != ']',
        jencode(v)[0] != '}',
        jencode(v)[0] != ',',
        jencode(v)[0] != ':',
{
    match v {
        JVal::Null => {
            reveal_strlit("null");
        },
        JVal::Bool(b) => {
            reveal_strlit("true");
            reveal_strlit("false");
        },
        JVal::Int(n) => {
            if n < 0 {
                lemma_dec_u_digits(-(n as int));
            } else {
                lemma_dec_u_digits(n as int);
                assert(jencode(v)[0] == dec_u(n as int)[0]);
                assert(digit_val(dec_u(n as int)[0]) is Some);
            }
        },
        JVal::Str(s) => {
        },
        JVal::Arr(items) => {
        },
        JVal::Obj(ms) => {
        },
    }
}

proof fn lemma_pval_null(pre: Seq<char>, tail: Seq<char>, fuel: nat)
    requires
        fuel >= 1,
    ensures
        pval(pre + "null"@ + tail, pre.len() as int, fuel) == Some(
            (JVal::Null, pre.len() as int + 4),
        ),
{
    reveal_strlit("null");
    let s = pre + "null"@ + tail;
    let i = pre.len() as int;
    assert("null"@ =~= seq!['n', 'u', 'l', 'l']);
    assert(s[i] == 'n' && s[i + 1] == 'u' && s[i + 2] == 'l' && s[i + 3] == 'l');
    assert(skip_ws(s, i) == i);
    assert(i + 3 < s.len());
}

proof fn lemma_pval_bool(b: bool, pre: Seq<char>, tail: Seq<char>, fuel: nat)
    requires
        fuel >= 1,
    ensures
        pval(pre + (if b { "true"@ } else { "false"@ }) + tail, pre.len() as int, fuel) == Some(
            (JVal::Bool(b), pre.len() as int + (if b { 4int } else { 5int })),
        ),
{
    reveal_strlit("true");
    reveal_strlit("false");
    let s = pre + (if b { "true"@ } else { "false"@ }) + tail;
    let i = pre.len() as int;
    if b {
        assert("true"@ =~= seq!['t', 'r', 'u', 'e']);
        assert(s[i] == 't' && s[i + 1] == 'r' && s[i + 2] == 'u' && s[i + 3] == 'e');
        assert(skip_ws(s, i) == i);
        assert(i + 3 < s.len());
    } else {
        assert("false"@ =~= seq!['f', 'a', 'l', 's', 'e']);
        assert(s[i] == 'f' && s[i + 1] == 'a' && s[i + 2] == 'l' && s[i + 3] == 's' && s[i + 4]
            == 'e');
        assert(skip_ws(s, i) == i);
        assert(i + 4 < s.len());
    }
}

proof fn lemma_pval_int(n: i64, pre: Seq<char>, tail: Seq<char>, fuel: nat)
    requires
        fuel >= 1,
        tail.len() > 0 ==> !extends_number(tail[0]),
    ensures
        pval(pre + dec_i(n as int) + tail, pre.len() as int, fuel) == Some(
            (JVal::Int(n), pre.len() + dec_i(n as int).len() as int),
        ),
{
    let s = pre + dec_i(n as int) + tail;
    let i = pre.len() as int;
    if n < 0 {
        lemma_dec_u_digits(-(n as int));
        assert(dec_i(n as int)[0] == '-');
    } else {
        lemma_dec_u_digits(n as int);
        assert(dec_i(n as int)[0] == dec_u(n as int)[0]);
        assert(digit_val(dec_i(n as int)[0]) is Some);
    }
    assert(s[i] == dec_i(n as int)[0]);
    assert(skip_ws(s, i) == i);
    lemma_pnumber_of_dec(pre, n as int, tail);
    let j = i + dec_i(n as int).len() as int;
    assert(j == s.len() || s[j] == tail[0]);
    assert(!(j < s.len() && extends_number(s[j])));
}

proof fn lemma_pval_str(t: Seq<char>, pre: Seq<char>, tail: Seq<char>, fuel: nat)
    requires
        fuel >= 1,
    ensures
        pval(pre + (seq!['"'] + esc(t) + seq!['"']) + tail, pre.len() as int, fuel) == Some(
            (JVal::Str(t), pre.len() + esc(t).len() as int + 2),
        ),
{
    let s = pre + (seq!['"'] + esc(t) + seq!['"']) + tail;
    let i = pre.len() as int;
    assert(s[i] == '"');
    assert(skip_ws(s, i) == i);
    let pre2 = pre + seq!['"'];
    assert(s =~= pre2 + esc(t) + seq!['"'] + tail);
    lemma_pstring_of_esc(t, pre2, tail);
}

/// Parsing a canonical encoding with enough fuel yields the encoded
/// value and stops right after it.
proof fn lemma_pval_of_jencode(v: JVal, pre: Seq<char>, tail: Seq<char>, fuel: nat)
    requires
        fuel >= jfuel(v),
        tail.len() > 0 ==> !extends_number(tail[0]),
    ensures
        pval(pre + jencode(v) + tail, pre.len() as int, fuel) == Some(
            (v, pre.len() + jencode(v).len() as int),
        ),
    decreases v, 2int,
{
    let enc = jencode(v);
    match v {
        JVal::Null => {
            lemma_pval_null(pre, tail, fuel);
            reveal_strlit("null");
            assert(enc == "null"@);
            assert(enc.len() == 4);
            assert(v == JVal::Null);
        },
        JVal::Bool(b) => {
            lemma_pval_bool(b, pre, tail, fuel);
            reveal_strlit("true");
            reveal_strlit("false");
            assert(enc == if b { "true"@ } else { "false"@ });
            assert(v == JVal::Bool(b));
        },
        JVal::Int(n) => {
            lemma_pval_int(n, pre, tail, fuel);
            assert(enc == dec_i(n as int));
            assert(v == JVal::Int(n));
        },
        JVal::Str(t) => {
            lemma_pval_str(t, pre, tail, fuel);
            assert(enc == seq!['"'] + esc(t) + seq!['"']);
            assert(v == JVal::Str(t));
        },
        JVal::Arr(items) => {
            lemma_pval_arr(items, pre, tail, fuel);
            assert(v == JVal::Arr(items));
        },
        JVal::Obj(ms) => {
            lemma_pval_obj(ms, pre, tail, fuel);
            assert(v == JVal::Obj(ms));
        },
    }
}

#[verifier::rlimit(100)]
proof fn lemma_pval_arr(items: Seq<JVal>, pre: Seq<char>, tail: Seq<char>, fuel: nat)
    requires
        fuel >= jfuel(JVal::Arr(items)),
    ensures
        pval(pre + jencode(JVal::Arr(items)) + tail, pre.len() as int, fuel) == Some(
            (JVal::Arr(items), pre.len() + jencode(JVal::Arr(items)).len() as int),
        ),
    decreases items, 1int,
{
    let v = JVal::Arr(items);
    let enc = jencode(v);
    let s = pre + enc + tail;
    let i = pre.len() as int;
    lemma_jencode_head(v);
    assert(s[i] == enc[0]);
    assert(skip_ws(s, i) == i);
    if items.len() == 0 {
        assert(items =~= Seq::<JVal>::empty());
        assert(jencode_items(items) =~= Seq::<char>::empty());
        assert(enc =~= seq!['[', ']']);
        assert(s[i + 1] == ']');
        assert(skip_ws(s, i + 1) == i + 1);
    } else {
        let pre2 = pre + seq!['['];
        assert(s =~= pre2 + jencode_items(items) + seq![']'] + tail);
        lemma_jencode_head(items[0]);
        assert(jencode_items(items)[0] == jencode(items[0])[0]);
        assert(s[i + 1] == jencode_items(items)[0]);
        assert(skip_ws(s, i + 1) == i + 1);
        assert(s[i + 1] != ']');
        lemma_pelems_of_jencode(items, pre2, tail, (fuel - 1) as nat);
    }
}

#[verifier::rlimit(100)]
proof fn lemma_pval_obj(ms: Seq<(Seq<char>, JVal)>, pre: Seq<char>, tail: Seq<char>, fuel: nat)
    requires
        fuel >= jfuel(JVal::Obj(ms)),
    ensures
        pval(pre + jencode(JVal::Obj(ms)) + tail, pre.len() as int, fuel) == Some(
            (JVal::Obj(ms), pre.len() + jencode(JVal::Obj(ms)).len() as int),
        ),
    decreases ms, 1int,
{
    let v = JVal::Obj(ms);
    let enc = jencode(v);
    let s = pre + enc + tail;
    let i = pre.len() as int;
    lemma_jencode_head(v);
    assert(s[i] == enc[0]);
    assert(skip_ws(s, i) == i);
    if ms.len() == 0 {
        assert(ms =~= Seq::<(Seq<char>, JVal)>::empty());
        assert(jencode_members(ms) =~= Seq::<char>::empty());
        assert(enc =~= seq!['{', '}']);
        assert(s[i + 1] == '}');
        assert(skip_ws(s, i + 1) == i + 1);
    } else {
        let pre2 = pre + seq!['{'];
        assert(s =~= pre2 + jencode_members(ms) + seq!['}'] + tail);
        assert(jencode_members(ms)[0] == '"');
        assert(s[i + 1] == '"');
        assert(skip_ws(s, i + 1) == i + 1);
        assert(s[i + 1] != '}');
        lemma_pmembers_of_jencode(ms, pre2, tail, (fuel - 1) as nat);
    }
}

#[verifier::rlimit(100)]
proof fn lemma_pelems_of_jencode(items: Seq<JVal>, pre: Seq<char>, tail: Seq<char>, fuel: nat)
    requires
        items.len() >= 1,
        fuel >= efuel(items),
    ensures
        pelems(pre + jencode_items(items) + seq![']'] + tail, pre.len() as int, fuel) == Some(
            (items, pre.len() + jencode_items(items).len() as int + 1),
        ),
    decreases items, 0int,
{
    let ei = jencode_items(items);
    let s = pre + ei + seq![']'] + tail;
    let i = pre.len() as int;
    let e0 = jencode(items[0]);
    if items.len() == 1 {
        assert(ei =~= e0);
        let tailv = seq![']'] + tail;
        assert(s =~= pre + e0 + tailv);
        assert(!extends_number(']'));
        lemma_pval_of_jencode(items[0], pre, tailv, (fuel - 1) as nat);
        let j = i + e0.len() as int;
        assert(s[j] == ']');
        assert(skip_ws(s, j) == j);
        assert(seq![items[0]] =~= items);
    } else {
        let rest = items.drop_first();
        assert(ei =~= e0 + seq![','] + jencode_items(rest));
        let tailv = seq![','] + jencode_items(rest) + seq![']'] + tail;
        assert(s =~= pre + e0 + tailv);
        assert(!extends_number(','));
        lemma_pval_of_jencode(items[0], pre, tailv, (fuel - 1) as nat);
        let j = i + e0.len() as int;
        assert(s[j] == ',');
        assert(skip_ws(s, j) == j);
        let pre2 = pre + e0 + seq![','];
        assert(s =~= pre2 + jencode_items(rest) + seq![']'] + tail);
        lemma_pelems_of_jencode(rest, pre2, tail, (fuel - 1) as nat);
        assert(seq![items[0]] + rest =~= items);
    }
}

/// One member of a canonical object — quoted key, colon, value —
/// parses piecewise: the key string, then the value, landing right
/// after the value.
#[verifier::rlimit(100)]
proof fn lemma_pmember_parts(key: Seq<char>, v0: JVal, pre: Seq<char>, tailr: Seq<char>, fuel: nat)
    requires
        fuel >= jfuel(v0),
        tailr.len() > 0 ==> !extends_number(tailr[0]),
    ensures
        ({
            let s = pre + (seq!['"'] + esc(key) + seq!['"', ':'] + jencode(v0)) + tailr;
            let i = pre.len() as int;
            let j = i + 2 + esc(key).len() as int;
            &&& s[i] == '"'
            &&& skip_ws(s, i) == i
            &&& pstring(s, i + 1) == Some((key, j))
            &&& skip_ws(s, j) == j
            &&& s[j] == ':'
            &&& pval(s, j + 1, fuel) == Some((v0, j + 1 + jencode(v0).len() as int))
        }),
    decreases v0, 3int,
{
    let s = pre + (seq!['"'] + esc(key) + seq!['"', ':'] + jencode(v0)) + tailr;
    let i = pre.len() as int;
    let j = i + 2 + esc(key).len() as int;
    assert(s[i] == '"');
    assert(skip_ws(s, i) == i);
    let pre2 = pre + seq!['"'];
    assert(s =~= pre2 + esc(key) + seq!['"'] + (seq![':'] + jencode(v0) + tailr));
    lemma_pstring_of_esc(key, pre2, seq![':'] + jencode(v0) + tailr);
    assert(s[j] == ':');
    assert(skip_ws(s, j) == j);
    let pre3 = pre + seq!['"'] + esc(key) + seq!['"'] + seq![':'];
    assert(s =~= pre3 + jencode(v0) + tailr);
    assert(pre3.len() == j + 1);
    lemma_pval_of_jencode(v0, pre3, tailr, fuel);
}

#[verifier::rlimit(100)]
proof fn lemma_pmembers_of_jencode(ms: Seq<(Seq<char>, JVal)>, pre: Seq<char>, tail: Seq<char>, fuel: nat)
    requires
        ms.len() >= 1,
        fuel >= mfuel(ms),
    ensures
        pmembers(pre + jencode_members(ms) + seq!['}'] + tail, pre.len() as int, fuel) == Some(
            (ms, pre.len() + jencode_members(ms).len() as int + 1),
        ),
    decreases ms, 0int,
{
    let em = jencode_members(ms);
    let s = pre + em + seq!['}'] + tail;
    let i = pre.len() as int;
    let key = ms[0].0;
    let v0 = ms[0].1;
    let j = i + 2 + esc(key).len() as int;
    let k = j + 1 + jencode(v0).len() as int;
    if ms.len() == 1 {
        assert(em =~= seq!['"'] + esc(key) + seq!['"', ':'] + jencode(v0));
        let tailr = seq!['}'] + tail;
        assert(s =~= pre + (seq!['"'] + esc(key) + seq!['"', ':'] + jencode(v0)) + tailr);
        assert(!extends_number('}'));
        lemma_pmember_parts(key, v0, pre, tailr, (fuel - 1) as nat);
        assert(s[k] == '}');
        assert(skip_ws(s, k) == k);
        assert(seq![(key, v0)] =~= ms);
        assert(k + 1 == i + em.len() + 1);
    } else {
        let rest = ms.drop_first();
        assert(em =~= seq!['"'] + esc(key) + seq!['"', ':'] + jencode(v0) + seq![',']
            + jencode_members(rest));
        let tailr = seq![','] + jencode_members(rest) + seq!['}'] + tail;
        assert(s =~= pre + (seq!['"'] + esc(key) + seq!['"', ':'] + jencode(v0)) + tailr);
        assert(!extends_number(','));
        lemma_pmember_parts(key, v0, pre, tailr, (fuel - 1) as nat);
        assert(s[k] == ',');
        assert(skip_ws(s, k) == k);
        let pre4 = pre + (seq!['"'] + esc(key) + seq!['"', ':'] + jencode(v0)) + seq![','];
        assert(s =~= pre4 + jencode_members(rest) + seq!['}'] + tail);
        assert(pre4.len() == k + 1);
        lemma_pmembers_of_jencode(rest, pre4, tail, (fuel - 1) as nat);
        assert(seq![(key, v0)] + rest =~= ms);
        assert(pre4.len() + jencode_members(rest).len() + 1 == i + em.len() + 1);
    }
}

/// The fuel a canonical encoding needs is within what the parser's
/// entry point always supplies.
proof fn lemma_jfuel_le(v: JVal)
    ensures
        jfuel(v) <= 2 * jencode(v).len(),
    decreases v,
{
    lemma_jencode_head(v);
    match v {
        JVal::Arr(items) => {
            if items.len() > 0 {
                lemma_efuel_le(items);
            }
        },
        JVal::Obj(ms) => {
            if ms.len() > 0 {
                lemma_mfuel_le(ms);
            }
        },
        _ => {
        },
    }
}

proof fn lemma_efuel_le(items: Seq<JVal>)
    requires
        items.len() >= 1,
    ensures
        efuel(items) <= 2 * jencode_items(items).len() + 1,
    decreases items,
{
    lemma_jfuel_le(items[0]);
    lemma_jencode_head(items[0]);
    if items.len() > 1 {
        lemma_efuel_le(items.drop_first());
        assert(jencode_items(items) =~= jencode(items[0]) + seq![','] + jencode_items(
            items.drop_first(),
        ));
        assert(jencode_items(items).len() == jencode(items[0]).len() + 1 + jencode_items(
            items.drop_first(),
        ).len());
        assert(efuel(items) == 1 + max_nat(jfuel(items[0]), efuel(items.drop_first())));
    } else {
        assert(items.drop_first().len() == 0);
        assert(efuel(items.drop_first()) == 1);
        assert(jencode_items(items) =~= jencode(items[0]));
        assert(efuel(items) == 1 + max_nat(jfuel(items[0]), 1));
    }
}

proof fn lemma_mfuel_le(ms: Seq<(Seq<char>, JVal)>)
    requires
        ms.len() >= 1,
    ensures
        mfuel(ms) <= 2 * jencode_members(ms).len() + 1,
    decreases ms,
{
    lemma_jfuel_le(ms[0].1);
    lemma_jencode_head(ms[0].1);
    if ms.len() > 1 {
        lemma_mfuel_le(ms.drop_first());
        assert(jencode_members(ms) =~= seq!['"'] + esc(ms[0].0) + seq!['"', ':'] + jencode(
            ms[0].1,
        ) + seq![','] + jencode_members(ms.drop_first()));
        assert(jencode_members(ms).len() == 4 + esc(ms[0].0).len() + jencode(ms[0].1).len()
            + jencode_members(ms.drop_first()).len());
        assert(mfuel(ms) == 1 + max_nat(jfuel(ms[0].1), mfuel(ms.drop_first())));
    } else {
        assert(ms.drop_first().len() == 0);
        assert(mfuel(ms.drop_first()) == 1);
        assert(jencode_members(ms) =~= seq!['"'] + esc(ms[0].0) + seq!['"', ':'] + jencode(
            ms[0].1,
        ));
        assert(jencode_members(ms).len() == 3 + esc(ms[0].0).len() + jencode(ms[0].1).len());
        assert(mfuel(ms) == 1 + max_nat(jfuel(ms[0].1), 1));
    }
}

/// The whole-line law of the canonical codec: a canonically encoded
/// value parses back to exactly that value.
pub proof fn lemma_parse_of_jencode(v: JVal)
    ensures
        parse_json_spec(jencode(v)) == Some(v),
{
    let s = jencode(v);
    lemma_jfuel_le(v);
    assert(s =~= Seq::<char>::empty() + s + Seq::<char>::empty());
    lemma_pval_of_jencode(v, Seq::empty(), Seq::empty(), parse_fuel(s));
    assert(pval(s, 0, parse_fuel(s)) == Some((v, s.len() as int)));
    assert(skip_ws(s, s.len() as int) == s.len());
}


/// Escaped string contents hold no control characters.
proof fn lemma_esc_printable(t: Seq<char>)
    ensures
        forall|i: int| 0 <= i < esc(t).len() ==> (#[trigger] esc(t)[i] as u32) >= 32,
    decreases t.len(),
{
    if t.len() > 0 {
        lemma_esc_printable(t.drop_first());
        let c = t[0];
        assert(esc(t) =~= esc_char(c) + esc(t.drop_first()));
        assert forall|i: int| 0 <= i < esc_char(c).len() implies (#[trigger] esc_char(c)[i]
            as u32) >= 32 by {
            if !(c == '"' || c == '\\' || c == '\n' || c == '\r' || c == '\t') && (c as u32)
                < 32 {
                assert(esc_char(c) =~= seq!['\\', 'u', '0', '0', hex_digit_char(
                    (c as u32) as int / 16,
                ), hex_digit_char((c as u32) as int % 16)]);
            }
        }
    }
}

/// A printed number holds no control characters.
proof fn lemma_dec_printable(n: int)
    ensures
        forall|i: int| 0 <= i < dec_i(n).len() ==> (#[trigger] dec_i(n)[i] as u32) >= 32,
{
    if n < 0 {
        lemma_dec_u_digits(-n);
        assert(dec_i(n) =~= seq!['-'] + dec_u(-n));
    } else {
        lemma_dec_u_digits(n);
        assert(dec_i(n) =~= dec_u(n));
    }
}

/// A canonical encoding is one line: it holds no control character,
/// in particular no newline and no carriage return.
pub proof fn lemma_jencode_one_line(v: JVal)
    ensures
        forall|i: int| 0 <= i < jencode(v).len() ==> (#[trigger] jencode(v)[i] as u32) >= 32,
    decreases v, 1int,
{
    match v {
        JVal::Null => {
            reveal_strlit("null");
            assert(jencode(v) =~= seq!['n', 'u', 'l', 'l']);
        },
        JVal::Bool(b) => {
            reveal_strlit("true");
            reveal_strlit("false");
            if b {
                assert(jencode(v) =~= seq!['t', 'r', 'u', 'e']);
            } else {
                assert(jencode(v) =~= seq!['f', 'a', 'l', 's', 'e']);
            }
        },
        JVal::Int(n) => {
            lemma_dec_printable(n as int);
            assert(jencode(v) =~= dec_i(n as int));
        },
        JVal::Str(t) => {
            lemma_esc_printable(t);
            assert(jencode(v) =~= seq!['"'] + esc(t) + seq!['"']);
        },
        JVal::Arr(items) => {
            lemma_jencode_items_one_line(items);
            assert(jencode(v) =~= seq!['['] + jencode_items(items) + seq![']']);
        },
        JVal::Obj(ms) => {
            lemma_jencode_members_one_line(ms);
            assert(jencode(v) =~= seq!['{'] + jencode_members(ms) + seq!['}']);
        },
    }
}

proof fn lemma_jencode_items_one_line(items: Seq<JVal>)
    ensures
        forall|i: int|
            0 <= i < jencode_items(items).len() ==> (#[trigger] jencode_items(items)[i] as u32)
                >= 32,
    decreases items, 0int,
{
    if items.len() == 1 {
        lemma_jencode_one_line(items[0]);
        assert(jencode_items(items) =~= jencode(items[0]));
    } else if items.len() > 1 {
        lemma_jencode_one_line(items[0]);
        lemma_jencode_items_one_line(items.drop_first());
        assert(jencode_items(items) =~= jencode(items[0]) + seq![','] + jencode_items(
            items.drop_first(),
        ));
    }
}

proof fn lemma_jencode_members_one_line(ms: Seq<(Seq<char>, JVal)>)
    ensures
        forall|i: int|
            0 <= i < jencode_members(ms).len() ==> (#[trigger] jencode_members(ms)[i] as u32)
                >= 32,
    decreases ms, 0int,
{
    if ms.len() == 1 {
        lemma_jencode_one_line(ms[0].1);
        lemma_esc_printable(ms[0].0);
        assert(jencode_members(ms) =~= seq!['"'] + esc(ms[0].0) + seq!['"', ':'] + jencode(
            ms[0].1,
        ));
    } else if ms.len() > 1 {
        lemma_jencode_one_line(ms[0].1);
        lemma_esc_printable(ms[0].0);
        lemma_jencode_members_one_line(ms.drop_first());
        assert(jencode_members(ms) =~= seq!['"'] + esc(ms[0].0) + seq!['"', ':'] + jencode(
            ms[0].1,
        ) + seq![','] + jencode_members(ms.drop_first()));
    }
}

} // verus!
