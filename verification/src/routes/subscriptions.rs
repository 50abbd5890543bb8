//! The subscription route: a form-encoded body is parsed into a subscriber
//! record, and the response says exactly which required field was missing.
//!
//! The body grammar is the usual `application/x-www-form-urlencoded` one:
//! pairs separated by `&`, a key and a value separated by the first `=`,
//! `+` standing for a space and `%XY` for the byte with hex value `XY`.

use vstd::prelude::*;
use vstd::slice::{slice_index_get, slice_subrange};

use crate::routes::Response;
use crate::text::{chars_of, string_of_chars};

verus! {

/// The subscriber record carried by a well-formed request body.
pub struct FormData {
    pub name: String,
    pub email: String,
}

/// The mathematical content of a `FormData`: the two field values.
pub struct FormView {
    pub name: Seq<char>,
    pub email: Seq<char>,
}

impl View for FormData {
    type V = FormView;

    open spec fn view(&self) -> FormView {
        FormView { name: self.name@, email: self.email@ }
    }
}

/// Why a request body was rejected.
#[derive(Clone, Copy, Debug, PartialEq, Eq, Structural)]
pub enum FormError {
    MissingName,
    MissingEmail,
    MissingBoth,
    Malformed,
}

/// The numeric value of one hex digit, if the character is one.
pub open spec fn hex_digit_value(c: char) -> Option<u8> {
    let v = c as u32;
    if 48 <= v && v <= 57 {
        Some((v - 48) as u8)
    } else if 97 <= v && v <= 102 {
        Some((v - 87) as u8)
    } else if 65 <= v && v <= 70 {
        Some((v - 55) as u8)
    } else {
        None
    }
}

/// The character written by a `%XY` escape with hex digits of value `hi`, `lo`.
pub open spec fn escaped_char(hi: u8, lo: u8) -> char
    recommends
        hi < 16,
        lo < 16,
{
    ((hi * 16 + lo) as u8) as char
}

/// Percent-decoding: `+` becomes a space, `%XY` the escaped character, and
/// everything else stands for itself. `None` on a truncated or non-hex escape.
pub open spec fn pct_decode(s: Seq<char>) -> Option<Seq<char>>
    decreases s.len(),
{
    if s.len() == 0 {
        Some(Seq::empty())
    } else if s[0] == '+' {
        match pct_decode(s.drop_first()) {
            Some(r) => Some(seq![' '] + r),
            None => None,
        }
    } else if s[0] == '%' {
        if s.len() >= 3 {
            match (hex_digit_value(s[1]), hex_digit_value(s[2])) {
                (Some(hi), Some(lo)) => match pct_decode(s.subrange(3, s.len() as int)) {
                    Some(r) => Some(seq![escaped_char(hi, lo)] + r),
                    None => None,
                },
                _ => None,
            }
        } else {
            None
        }
    } else {
        match pct_decode(s.drop_first()) {
            Some(r) => Some(seq![s[0]] + r),
            None => None,
        }
    }
}

/// The pieces of a body split on `&`. The empty body is one empty piece, and
/// each separator opens a new piece, so the result is never empty.
pub open spec fn split_amp(s: Seq<char>) -> Seq<Seq<char>>
    decreases s.len(),
{
    if s.len() == 0 {
        seq![Seq::<char>::empty()]
    } else if s[0] == '&' {
        seq![Seq::<char>::empty()] + split_amp(s.drop_first())
    } else {
        let rest = split_amp(s.drop_first());
        seq![seq![s[0]] + rest[0]] + rest.drop_first()
    }
}

/// A piece cut at its first `=`: what precedes is the key, what follows is
/// the value. A piece with no `=` is a bare key with an empty value.
pub open spec fn split_eq_pair(s: Seq<char>) -> (Seq<char>, Seq<char>)
    decreases s.len(),
{
    if s.len() == 0 {
        (Seq::empty(), Seq::empty())
    } else if s[0] == '=' {
        (Seq::empty(), s.drop_first())
    } else {
        let (k, v) = split_eq_pair(s.drop_first());
        (seq![s[0]] + k, v)
    }
}

/// Every key and value of the raw pairs, percent-decoded; `None` as soon as
/// any of them is malformed.
pub open spec fn decode_pairs(raw: Seq<(Seq<char>, Seq<char>)>) -> Option<
    Seq<(Seq<char>, Seq<char>)>,
>
    decreases raw.len(),
{
    if raw.len() == 0 {
        Some(Seq::empty())
    } else {
        match (pct_decode(raw[0].0), pct_decode(raw[0].1)) {
            (Some(k), Some(v)) => match decode_pairs(raw.drop_first()) {
                Some(rest) => Some(seq![(k, v)] + rest),
                None => None,
            },
            _ => None,
        }
    }
}

/// The value of the first pair carrying the given key, if any pair does.
pub open spec fn lookup(ps: Seq<(Seq<char>, Seq<char>)>, key: Seq<char>) -> Option<Seq<char>>
    decreases ps.len(),
{
    if ps.len() == 0 {
        None
    } else if ps[0].0 == key {
        Some(ps[0].1)
    } else {
        lookup(ps.drop_first(), key)
    }
}

/// Each piece cut at its first `=`.
pub open spec fn pieces_raw(pieces: Seq<Seq<char>>) -> Seq<(Seq<char>, Seq<char>)> {
    pieces.map_values(|p: Seq<char>| split_eq_pair(p))
}

/// The raw key/value pairs of a body: split on `&`, then each piece at its
/// first `=`.
pub open spec fn raw_pairs(body: Seq<char>) -> Seq<(Seq<char>, Seq<char>)> {
    pieces_raw(split_amp(body))
}

/// What the subscription route makes of a request body: the two field values
/// when both are present, and otherwise exactly which of them is not.
pub open spec fn form_outcome(body: Seq<char>) -> Result<FormView, FormError> {
    match decode_pairs(raw_pairs(body)) {
        None => Err(FormError::Malformed),
        Some(ps) => match (lookup(ps, "name"@), lookup(ps, "email"@)) {
            (Some(n), Some(e)) => Ok(FormView { name: n, email: e }),
            (Some(_), None) => Err(FormError::MissingEmail),
            (None, Some(_)) => Err(FormError::MissingName),
            (None, None) => Err(FormError::MissingBoth),
        },
    }
}

impl FormError {
    /// The reason sent back with a 400 response.
    pub open spec fn message_view(&self) -> Seq<char> {
        match self {
            FormError::MissingName => "missing the name"@,
            FormError::MissingEmail => "missing the email"@,
            FormError::MissingBoth => "missing both the name and email"@,
            FormError::Malformed => "malformed form body"@,
        }
    }

    /// Writes the reason out.
    pub fn message(&self) -> (r: String)
        ensures
            r@ == self.message_view(),
    {
        match self {
            FormError::MissingName => String::from_str("missing the name"),
            FormError::MissingEmail => String::from_str("missing the email"),
            FormError::MissingBoth => String::from_str("missing both the name and email"),
            FormError::Malformed => String::from_str("malformed form body"),
        }
    }
}

/// Reads one hex digit.
fn hex_digit_value_exec(c: char) -> (r: Option<u8>)
    ensures
        r == hex_digit_value(c),
        r matches Some(x) ==> x < 16,
{
    let v = c as u32;
    if 48 <= v && v <= 57 {
        Some((v - 48) as u8)
    } else if 97 <= v && v <= 102 {
        Some((v - 87) as u8)
    } else if 65 <= v && v <= 70 {
        Some((v - 55) as u8)
    } else {
        None
    }
}

/// Percent-decodes one piece of the body.
fn pct_decode_exec(s: &[char]) -> (r: Option<Vec<char>>)
    ensures
        match r {
            Some(v) => pct_decode(s@) == Some(v@),
            None => pct_decode(s@) is None,
        },
    decreases s@.len(),
{
    if s.len() == 0 {
        let r: Vec<char> = Vec::new();
        proof {
            assert(pct_decode(s@) == Some(r@));
        }
        Some(r)
    } else {
        let c = *slice_index_get(s, 0);
        if c == '+' {
            let rest = slice_subrange(s, 1, s.len());
            proof {
                assert(rest@ == s@.drop_first());
            }
            match pct_decode_exec(rest) {
                Some(mut v) => {
                    v.insert(0, ' ');
                    proof {
                        assert(v@ =~= seq![' '] + pct_decode(s@.drop_first())->Some_0);
                    }
                    Some(v)
                },
                None => None,
            }
        } else if c == '%' {
            if s.len() >= 3 {
                let h1 = hex_digit_value_exec(*slice_index_get(s, 1));
                let h2 = hex_digit_value_exec(*slice_index_get(s, 2));
                match (h1, h2) {
                    (Some(hi), Some(lo)) => {
                        let rest = slice_subrange(s, 3, s.len());
                        match pct_decode_exec(rest) {
                            Some(mut v) => {
                                v.insert(0, (hi * 16 + lo) as char);
                                proof {
                                    assert(v@ =~= seq![escaped_char(hi, lo)] + pct_decode(
                                        s@.subrange(3, s@.len() as int),
                                    )->Some_0);
                                }
                                Some(v)
                            },
                            None => None,
                        }
                    },
                    _ => None,
                }
            } else {
                None
            }
        } else {
            let rest = slice_subrange(s, 1, s.len());
            proof {
                assert(rest@ == s@.drop_first());
            }
            match pct_decode_exec(rest) {
                Some(mut v) => {
                    v.insert(0, c);
                    proof {
                        assert(v@ =~= seq![s@[0]] + pct_decode(s@.drop_first())->Some_0);
                    }
                    Some(v)
                },
                None => None,
            }
        }
    }
}

/// Splits the body on `&`.
fn split_amp_exec(s: &[char]) -> (r: Vec<Vec<char>>)
    ensures
        r.deep_view() == split_amp(s@),
        r@.len() >= 1,
    decreases s@.len(),
{
    if s.len() == 0 {
        let mut r: Vec<Vec<char>> = Vec::new();
        r.push(Vec::new());
        proof {
            assert(r.deep_view() =~~= split_amp(s@));
        }
        r
    } else {
        let c = *slice_index_get(s, 0);
        let rest = slice_subrange(s, 1, s.len());
        proof {
            assert(rest@ == s@.drop_first());
        }
        if c == '&' {
            let mut r = split_amp_exec(rest);
            r.insert(0, Vec::new());
            proof {
                assert(r.deep_view() =~~= split_amp(s@));
            }
            r
        } else {
            let mut r = split_amp_exec(rest);
            let mut first = r.remove(0);
            first.insert(0, c);
            r.insert(0, first);
            proof {
                assert(r.deep_view() =~~= split_amp(s@));
            }
            r
        }
    }
}

/// Cuts one piece at its first `=`.
fn split_eq_exec(s: &[char]) -> (r: (Vec<char>, Vec<char>))
    ensures
        r.0@ == split_eq_pair(s@).0,
        r.1@ == split_eq_pair(s@).1,
    decreases s@.len(),
{
    if s.len() == 0 {
        (Vec::new(), Vec::new())
    } else {
        let c = *slice_index_get(s, 0);
        let rest = slice_subrange(s, 1, s.len());
        proof {
            assert(rest@ == s@.drop_first());
        }
        if c == '=' {
            let mut v: Vec<char> = Vec::new();
            let mut i: usize = 1;
            while i < s.len()
                invariant
                    1 <= i <= s@.len(),
                    v@ == s@.subrange(1, i as int),
                decreases s@.len() - i,
            {
                v.push(*slice_index_get(s, i));
                proof {
                    assert(v@ =~= s@.subrange(1, i + 1));
                }
                i += 1;
            }
            proof {
                assert(v@ =~= s@.drop_first());
            }
            (Vec::new(), v)
        } else {
            let (mut k, v) = split_eq_exec(rest);
            k.insert(0, c);
            proof {
                assert(k@ =~= seq![s@[0]] + split_eq_pair(s@.drop_first()).0);
            }
            (k, v)
        }
    }
}

/// Splits each piece into a pair and percent-decodes both halves.
fn decode_pieces(pieces: &[Vec<char>]) -> (r: Option<Vec<(String, String)>>)
    ensures
        match r {
            Some(ps) => decode_pairs(pieces_raw(pieces.deep_view())) == Some(ps.deep_view()),
            None => decode_pairs(pieces_raw(pieces.deep_view())) is None,
        },
    decreases pieces@.len(),
{
    let ghost raw = pieces_raw(pieces.deep_view());
    if pieces.len() == 0 {
        let r: Vec<(String, String)> = Vec::new();
        proof {
            assert(raw =~= Seq::<(Seq<char>, Seq<char>)>::empty());
            assert(r.deep_view() =~~= Seq::<(Seq<char>, Seq<char>)>::empty());
        }
        Some(r)
    } else {
        let piece = slice_index_get(pieces, 0);
        let (k, v) = split_eq_exec(piece.as_slice());
        proof {
            assert(pieces.deep_view()[0] == pieces@[0]@);
            assert(raw[0] == split_eq_pair(pieces.deep_view()[0]));
            assert(raw[0].0 == k@ && raw[0].1 == v@);
        }
        match (pct_decode_exec(k.as_slice()), pct_decode_exec(v.as_slice())) {
            (Some(dk), Some(dv)) => {
                let rest = slice_subrange(pieces, 1, pieces.len());
                proof {
                    assert(pieces_raw(rest.deep_view()) =~= raw.drop_first());
                }
                match decode_pieces(rest) {
                    Some(mut ps) => {
                        let dk_s = string_of_chars(dk.as_slice());
                        let dv_s = string_of_chars(dv.as_slice());
                        proof {
                            assert(pct_decode(raw[0].0) == Some(dk@));
                            assert(pct_decode(raw[0].1) == Some(dv@));
                            assert(decode_pairs(raw.drop_first()) == Some(ps.deep_view()));
                        }
                        ps.insert(0, (dk_s, dv_s));
                        proof {
                            assert(ps.deep_view() =~~= seq![(dk@, dv@)]
                                + decode_pairs(raw.drop_first())->Some_0);
                            assert(decode_pairs(raw) == Some(ps.deep_view()));
                        }
                        Some(ps)
                    },
                    None => None,
                }
            },
            _ => None,
        }
    }
}

/// Finds the first pair with the given key.
fn lookup_exec(ps: &[(String, String)], key: &String) -> (r: Option<String>)
    ensures
        match r {
            Some(v) => lookup(ps.deep_view(), key@) == Some(v@),
            None => lookup(ps.deep_view(), key@) is None,
        },
    decreases ps@.len(),
{
    if ps.len() == 0 {
        None
    } else {
        let p = slice_index_get(ps, 0);
        proof {
            assert(ps.deep_view()[0] == (ps@[0].0@, ps@[0].1@));
        }
        if p.0 == *key {
            Some(p.1.clone())
        } else {
            let rest = slice_subrange(ps, 1, ps.len());
            proof {
                assert(rest.deep_view() =~~= ps.deep_view().drop_first());
            }
            lookup_exec(rest, key)
        }
    }
}

/// Parses a request body into the subscriber record it carries, or says
/// exactly why it does not carry one.
pub fn parse_form_body(body: &str) -> (r: Result<FormData, FormError>)
    ensures
        match r {
            Ok(f) => form_outcome(body@) == Ok::<FormView, FormError>(f@),
            Err(e) => form_outcome(body@) == Err::<FormView, FormError>(e),
        },
{
    let chars = chars_of(body);
    let pieces = split_amp_exec(chars.as_slice());
    proof {
        assert(pieces_raw(pieces.deep_view()) == raw_pairs(body@));
    }
    match decode_pieces(pieces.as_slice()) {
        None => Err(FormError::Malformed),
        Some(ps) => {
            let name_key = String::from_str("name");
            let email_key = String::from_str("email");
            let n = lookup_exec(ps.as_slice(), &name_key);
            let e = lookup_exec(ps.as_slice(), &email_key);
            match (n, e) {
                (Some(n), Some(e)) => Ok(FormData { name: n, email: e }),
                (Some(_), None) => Err(FormError::MissingEmail),
                (None, Some(_)) => Err(FormError::MissingName),
                (None, None) => Err(FormError::MissingBoth),
            }
        },
    }
}

/// Handles a parsed subscription request. The route does not yet persist the
/// record: every well-formed request is answered with 200.
pub fn subscribe(form: FormData) -> (status: u16)
    ensures
        status == 200,
{
    let _ = form;
    200
}

/// The whole route, from raw body to response: 200 with an empty body when
/// both fields are present, 400 with the exact reason when not.
pub fn handle_subscription(body: &str) -> (r: Response)
    ensures
        form_outcome(body@) is Ok ==> r.status == 200 && r.body@.len() == 0,
        form_outcome(body@) matches Err(e) ==> r.status == 400 && r.body@ == e.message_view(),
        r.status == 200 || r.status == 400,
{
    match parse_form_body(body) {
        Ok(form) => {
            let status = subscribe(form);
            Response { status, body: String::new() }
        },
        Err(e) => Response { status: 400, body: e.message() },
    }
}

/// A character that stands for itself in a form body: not a separator and
/// not part of an escape.
pub open spec fn plain_char(c: char) -> bool {
    c != '&' && c != '=' && c != '%' && c != '+'
}

/// Every character of the sequence stands for itself.
pub open spec fn plain_seq(s: Seq<char>) -> bool {
    forall|i: int| 0 <= i < s.len() ==> plain_char(#[trigger] s[i])
}

/// A sequence of plain characters decodes to itself.
proof fn lemma_decode_plain(s: Seq<char>)
    requires
        plain_seq(s),
    ensures
        pct_decode(s) == Some(s),
    decreases s.len(),
{
    if s.len() == 0 {
        assert(s =~= Seq::<char>::empty());
    } else {
        assert(plain_char(s[0]));
        assert(plain_seq(s.drop_first()));
        lemma_decode_plain(s.drop_first());
        assert(seq![s[0]] + s.drop_first() =~= s);
    }
}

/// A piece without separators splits into itself alone.
proof fn lemma_split_amp_whole(s: Seq<char>)
    requires
        forall|i: int| 0 <= i < s.len() ==> #[trigger] s[i] != '&',
    ensures
        split_amp(s) == seq![s],
    decreases s.len(),
{
    if s.len() == 0 {
        assert(split_amp(s) =~~= seq![s]);
    } else {
        lemma_split_amp_whole(s.drop_first());
        assert(seq![s[0]] + s.drop_first() =~= s);
        assert(split_amp(s) =~~= seq![s]);
    }
}

/// Splitting cuts exactly at a separator: what precedes it, having none,
/// is the first piece.
proof fn lemma_split_amp_cut(a: Seq<char>, b: Seq<char>)
    requires
        forall|i: int| 0 <= i < a.len() ==> #[trigger] a[i] != '&',
    ensures
        split_amp(a + seq!['&'] + b) == seq![a] + split_amp(b),
    decreases a.len(),
{
    let s = a + seq!['&'] + b;
    if a.len() == 0 {
        assert(s =~= seq!['&'] + b);
        assert(s[0] == '&');
        assert(s.drop_first() =~= b);
        assert(split_amp(s) =~~= seq![a] + split_amp(b));
    } else {
        assert(s[0] == a[0]);
        assert(s.drop_first() =~= a.drop_first() + seq!['&'] + b);
        lemma_split_amp_cut(a.drop_first(), b);
        let rest = split_amp(s.drop_first());
        assert(rest[0] == a.drop_first());
        assert(seq![s[0]] + rest[0] =~= a);
        assert(rest.drop_first() =~= split_amp(b));
        assert(split_amp(s) =~~= seq![a] + split_amp(b));
    }
}

/// A piece cuts at its first `=`: a key without one, then the value.
proof fn lemma_split_eq_cut(k: Seq<char>, v: Seq<char>)
    requires
        forall|i: int| 0 <= i < k.len() ==> #[trigger] k[i] != '=',
    ensures
        split_eq_pair(k + seq!['='] + v) == (k, v),
    decreases k.len(),
{
    let s = k + seq!['='] + v;
    if k.len() == 0 {
        assert(s =~= seq!['='] + v);
        assert(s[0] == '=');
        assert(s.drop_first() =~= v);
        assert(split_eq_pair(s).0 =~= k);
    } else {
        assert(s[0] == k[0]);
        assert(s.drop_first() =~= k.drop_first() + seq!['='] + v);
        lemma_split_eq_cut(k.drop_first(), v);
        assert(seq![s[0]] + split_eq_pair(s.drop_first()).0 =~= k);
    }
}

/// The lowercase hex digit for a nibble.
pub open spec fn hex_digit_char(d: u8) -> char
    recommends
        d < 16,
{
    if d < 10 {
        ((d + 48) as u8) as char
    } else {
        ((d + 87) as u8) as char
    }
}

/// How one character is written in a form body: plain characters stand for
/// themselves, everything else as a `%XY` escape of its code.
pub open spec fn encode_char(c: char) -> Seq<char>
    recommends
        (c as u32) < 256,
{
    if plain_char(c) {
        seq![c]
    } else {
        seq![
            '%',
            hex_digit_char(((c as u32) / 16 % 16) as u8),
            hex_digit_char(((c as u32) % 16) as u8),
        ]
    }
}

/// Percent-encoding of a field value, character by character.
pub open spec fn pct_encode(s: Seq<char>) -> Seq<char>
    decreases s.len(),
{
    if s.len() == 0 {
        Seq::empty()
    } else {
        encode_char(s[0]) + pct_encode(s.drop_first())
    }
}

/// A value whose characters all have single-byte codes, so each can be
/// written as one `%XY` escape.
pub open spec fn byte_seq(s: Seq<char>) -> bool {
    forall|i: int| 0 <= i < s.len() ==> (#[trigger] s[i] as u32) < 256
}

/// Reading back the hex digit of a nibble gives the nibble.
proof fn lemma_hex_digit_roundtrip(d: u8)
    requires
        d < 16,
    ensures
        hex_digit_value(hex_digit_char(d)) == Some(d),
{
}

/// No character of an encoded value is a pair or field separator.
proof fn lemma_encode_no_separator(s: Seq<char>)
    ensures
        forall|i: int| 0 <= i < pct_encode(s).len() ==> #[trigger] pct_encode(s)[i] != '&',
        forall|i: int| 0 <= i < pct_encode(s).len() ==> #[trigger] pct_encode(s)[i] != '=',
    decreases s.len(),
{
    if s.len() == 0 {
    } else {
        lemma_encode_no_separator(s.drop_first());
        assert forall|i: int| 0 <= i < pct_encode(s).len() implies #[trigger] pct_encode(s)[i]
            != '&' && pct_encode(s)[i] != '=' by {
            let head = encode_char(s[0]);
            if i < head.len() {
                assert(pct_encode(s)[i] == head[i]);
            } else {
                assert(pct_encode(s)[i] == pct_encode(s.drop_first())[i - head.len()]);
            }
        }
    }
}

/// Decoding undoes encoding: every value of single-byte characters comes
/// back from its encoded form exactly as it was.
pub proof fn lemma_decode_encode(s: Seq<char>)
    requires
        byte_seq(s),
    ensures
        pct_decode(pct_encode(s)) == Some(s),
    decreases s.len(),
{
    if s.len() == 0 {
        assert(pct_encode(s) =~= Seq::<char>::empty());
        assert(s =~= Seq::<char>::empty());
    } else {
        let c = s[0];
        let enc = pct_encode(s);
        assert(byte_seq(s.drop_first()));
        lemma_decode_encode(s.drop_first());
        if plain_char(c) {
            assert(enc[0] == c);
            assert(enc.drop_first() =~= pct_encode(s.drop_first()));
            assert(seq![c] + s.drop_first() =~= s);
        } else {
            let code = c as u32;
            let hi = ((code / 16) % 16) as u8;
            let lo = (code % 16) as u8;
            lemma_hex_digit_roundtrip(hi);
            lemma_hex_digit_roundtrip(lo);
            assert(enc[0] == '%' && enc[1] == hex_digit_char(hi) && enc[2] == hex_digit_char(lo));
            assert(enc[0] != '+') by {
                assert(('+' as u32) == 43 && ('%' as u32) == 37);
            }
            assert(enc.subrange(3, enc.len() as int) =~= pct_encode(s.drop_first()));
            assert(escaped_char(hi, lo) == c);
            assert(seq![c] + s.drop_first() =~= s);
        }
    }
}

/// The two field-name literals, spelled out.
proof fn lemma_keys()
    ensures
        "name"@ == seq!['n', 'a', 'm', 'e'],
        "email"@ == seq!['e', 'm', 'a', 'i', 'l'],
        "name="@ == seq!['n', 'a', 'm', 'e', '='],
        "email="@ == seq!['e', 'm', 'a', 'i', 'l', '='],
        "&email="@ == seq!['&', 'e', 'm', 'a', 'i', 'l', '='],
{
    reveal_strlit("name");
    reveal_strlit("email");
    reveal_strlit("name=");
    reveal_strlit("email=");
    reveal_strlit("&email=");
    assert("name"@ =~= seq!['n', 'a', 'm', 'e']);
    assert("email"@ =~= seq!['e', 'm', 'a', 'i', 'l']);
    assert("name="@ =~= seq!['n', 'a', 'm', 'e', '=']);
    assert("email="@ =~= seq!['e', 'm', 'a', 'i', 'l', '=']);
    assert("&email="@ =~= seq!['&', 'e', 'm', 'a', 'i', 'l', '=']);
}

/// Every body that writes a pair of field values in the usual order —
/// `name=<n>&email=<e>`, the values non-empty and made of plain characters —
/// parses to exactly those values, so the route answers it with 200.
pub proof fn lemma_valid_pair_accepted(n: Seq<char>, e: Seq<char>)
    requires
        n.len() > 0,
        e.len() > 0,
        plain_seq(n),
        plain_seq(e),
    ensures
        form_outcome("name="@ + n + "&email="@ + e) == Ok::<FormView, FormError>(
            FormView { name: n, email: e },
        ),
{
    lemma_keys();
    let body = "name="@ + n + "&email="@ + e;
    let a = "name"@ + seq!['='] + n;
    let b = "email"@ + seq!['='] + e;
    assert(body =~= a + seq!['&'] + b);
    assert(forall|i: int| 0 <= i < a.len() ==> #[trigger] a[i] != '&');
    lemma_split_amp_cut(a, b);
    assert(forall|i: int| 0 <= i < b.len() ==> #[trigger] b[i] != '&');
    lemma_split_amp_whole(b);
    assert(split_amp(body) == seq![a] + seq![b]);
    assert(forall|i: int| 0 <= i < "name"@.len() ==> #[trigger] "name"@[i] != '=');
    lemma_split_eq_cut("name"@, n);
    assert(forall|i: int| 0 <= i < "email"@.len() ==> #[trigger] "email"@[i] != '=');
    lemma_split_eq_cut("email"@, e);
    let raw = raw_pairs(body);
    assert(raw =~= seq![("name"@, n), ("email"@, e)]);
    assert(plain_seq("name"@));
    assert(plain_seq("email"@));
    lemma_decode_plain("name"@);
    lemma_decode_plain("email"@);
    lemma_decode_plain(n);
    lemma_decode_plain(e);
    assert(raw.drop_first() =~= seq![("email"@, e)]);
    assert(raw.drop_first().drop_first() =~= Seq::<(Seq<char>, Seq<char>)>::empty());
    assert(decode_pairs(raw.drop_first().drop_first()) == Some(
        Seq::<(Seq<char>, Seq<char>)>::empty(),
    ));
    assert(decode_pairs(raw.drop_first()) == Some(seq![("email"@, e)] + Seq::<
        (Seq<char>, Seq<char>),
    >::empty()));
    let ps = decode_pairs(raw)->Some_0;
    assert(ps =~= seq![("name"@, n), ("email"@, e)]);
    assert(lookup(ps, "name"@) == Some(n));
    assert(ps.drop_first() =~= seq![("email"@, e)]);
    assert("name"@ != "email"@);
    assert(lookup(seq![("email"@, e)], "email"@) == Some(e));
    assert(lookup(ps, "email"@) == Some(e));
}

/// Every valid pair of field values is accepted: a body that percent-encodes
/// any two non-empty values of single-byte characters in the usual order —
/// `name=<n>&email=<e>` — parses back to exactly those values, so the route
/// answers it with 200.
pub proof fn lemma_encoded_pair_accepted(n: Seq<char>, e: Seq<char>)
    requires
        n.len() > 0,
        e.len() > 0,
        byte_seq(n),
        byte_seq(e),
    ensures
        form_outcome("name="@ + pct_encode(n) + "&email="@ + pct_encode(e)) == Ok::<
            FormView,
            FormError,
        >(FormView { name: n, email: e }),
{
    lemma_keys();
    lemma_encode_no_separator(n);
    lemma_encode_no_separator(e);
    let en = pct_encode(n);
    let ee = pct_encode(e);
    let body = "name="@ + en + "&email="@ + ee;
    let a = "name"@ + seq!['='] + en;
    let b = "email"@ + seq!['='] + ee;
    assert(body =~= a + seq!['&'] + b);
    assert(forall|i: int| 0 <= i < a.len() ==> #[trigger] a[i] != '&');
    lemma_split_amp_cut(a, b);
    assert(forall|i: int| 0 <= i < b.len() ==> #[trigger] b[i] != '&');
    lemma_split_amp_whole(b);
    assert(split_amp(body) == seq![a] + seq![b]);
    assert(forall|i: int| 0 <= i < "name"@.len() ==> #[trigger] "name"@[i] != '=');
    lemma_split_eq_cut("name"@, en);
    assert(forall|i: int| 0 <= i < "email"@.len() ==> #[trigger] "email"@[i] != '=');
    lemma_split_eq_cut("email"@, ee);
    let raw = raw_pairs(body);
    assert(raw =~= seq![("name"@, en), ("email"@, ee)]);
    assert(plain_seq("name"@));
    assert(plain_seq("email"@));
    lemma_decode_plain("name"@);
    lemma_decode_plain("email"@);
    lemma_decode_encode(n);
    lemma_decode_encode(e);
    assert(raw.drop_first() =~= seq![("email"@, ee)]);
    assert(raw.drop_first().drop_first() =~= Seq::<(Seq<char>, Seq<char>)>::empty());
    assert(decode_pairs(raw.drop_first().drop_first()) == Some(
        Seq::<(Seq<char>, Seq<char>)>::empty(),
    ));
    assert(decode_pairs(raw.drop_first()) == Some(seq![("email"@, e)] + Seq::<
        (Seq<char>, Seq<char>),
    >::empty()));
    let ps = decode_pairs(raw)->Some_0;
    assert(ps =~= seq![("name"@, n), ("email"@, e)]);
    assert(lookup(ps, "name"@) == Some(n));
    assert(ps.drop_first() =~= seq![("email"@, e)]);
    assert("name"@ != "email"@);
    assert(lookup(seq![("email"@, e)], "email"@) == Some(e));
    assert(lookup(ps, "email"@) == Some(e));
}

/// A body that writes only the name — `name=<n>`, the value plain — is
/// rejected for exactly the missing email, so the route answers it with 400.
pub proof fn lemma_missing_email_rejected(n: Seq<char>)
    requires
        plain_seq(n),
    ensures
        form_outcome("name="@ + n) == Err::<FormView, FormError>(FormError::MissingEmail),
{
    lemma_keys();
    let body = "name="@ + n;
    let a = "name"@ + seq!['='] + n;
    assert(body =~= a);
    assert(forall|i: int| 0 <= i < a.len() ==> #[trigger] a[i] != '&');
    lemma_split_amp_whole(a);
    lemma_split_eq_cut("name"@, n);
    let raw = raw_pairs(body);
    assert(raw =~= seq![("name"@, n)]);
    lemma_decode_plain("name"@);
    lemma_decode_plain(n);
    assert(raw.drop_first() =~= Seq::<(Seq<char>, Seq<char>)>::empty());
    assert(decode_pairs(Seq::<(Seq<char>, Seq<char>)>::empty()) == Some(
        Seq::<(Seq<char>, Seq<char>)>::empty(),
    ));
    let ps = decode_pairs(raw)->Some_0;
    assert(ps =~= seq![("name"@, n)]);
    assert(lookup(ps, "name"@) == Some(n));
    assert("name"@ != "email"@);
    assert(ps.drop_first() =~= Seq::<(Seq<char>, Seq<char>)>::empty());
    assert(lookup(Seq::<(Seq<char>, Seq<char>)>::empty(), "email"@) is None);
    assert(lookup(ps, "email"@) is None);
}

/// A body that writes only the email — `email=<e>`, the value plain — is
/// rejected for exactly the missing name, so the route answers it with 400.
pub proof fn lemma_missing_name_rejected(e: Seq<char>)
    requires
        plain_seq(e),
    ensures
        form_outcome("email="@ + e) == Err::<FormView, FormError>(FormError::MissingName),
{
    lemma_keys();
    let body = "email="@ + e;
    let a = "email"@ + seq!['='] + e;
    assert(body =~= a);
    assert(forall|i: int| 0 <= i < a.len() ==> #[trigger] a[i] != '&');
    lemma_split_amp_whole(a);
    lemma_split_eq_cut("email"@, e);
    let raw = raw_pairs(body);
    assert(raw =~= seq![("email"@, e)]);
    lemma_decode_plain("email"@);
    lemma_decode_plain(e);
    assert(raw.drop_first() =~= Seq::<(Seq<char>, Seq<char>)>::empty());
    assert(decode_pairs(Seq::<(Seq<char>, Seq<char>)>::empty()) == Some(
        Seq::<(Seq<char>, Seq<char>)>::empty(),
    ));
    let ps = decode_pairs(raw)->Some_0;
    assert(ps =~= seq![("email"@, e)]);
    assert("name"@ != "email"@);
    assert(ps.drop_first() =~= Seq::<(Seq<char>, Seq<char>)>::empty());
    assert(lookup(Seq::<(Seq<char>, Seq<char>)>::empty(), "name"@) is None);
    assert(lookup(ps, "name"@) is None);
    assert(lookup(ps, "email"@) == Some(e));
}

/// The empty body names neither field, so it is rejected for missing both
/// and the route answers it with 400.
pub proof fn lemma_empty_body_rejected()
    ensures
        form_outcome(Seq::<char>::empty()) == Err::<FormView, FormError>(FormError::MissingBoth),
{
    lemma_keys();
    let body = Seq::<char>::empty();
    let raw = raw_pairs(body);
    assert(split_amp(body) == seq![Seq::<char>::empty()]);
    assert(raw =~= seq![(Seq::<char>::empty(), Seq::<char>::empty())]);
    assert(plain_seq(Seq::<char>::empty()));
    lemma_decode_plain(Seq::<char>::empty());
    assert(raw.drop_first() =~= Seq::<(Seq<char>, Seq<char>)>::empty());
    assert(decode_pairs(Seq::<(Seq<char>, Seq<char>)>::empty()) == Some(
        Seq::<(Seq<char>, Seq<char>)>::empty(),
    ));
    let ps = decode_pairs(raw)->Some_0;
    assert(ps =~= seq![(Seq::<char>::empty(), Seq::<char>::empty())]);
    assert(Seq::<char>::empty() != "name"@);
    assert(Seq::<char>::empty() != "email"@);
    assert(ps.drop_first() =~= Seq::<(Seq<char>, Seq<char>)>::empty());
    assert(lookup(Seq::<(Seq<char>, Seq<char>)>::empty(), "name"@) is None);
    assert(lookup(Seq::<(Seq<char>, Seq<char>)>::empty(), "email"@) is None);
    assert(lookup(ps, "name"@) is None);
    assert(lookup(ps, "email"@) is None);
}

} // verus!
