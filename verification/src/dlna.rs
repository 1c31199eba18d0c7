//! Request paths: walking their segments, and percent encoding and
//! decoding of ids inside them.

use vstd::prelude::*;
use vstd::string::StringSliceAdditionalSpecFns;

verus! {

/// The value of a hexadecimal digit, either case.
pub open spec fn hexv(b: u8) -> Option<u8> {
    if 48 <= b <= 57 {
        Some((b - 48) as u8)
    } else if 97 <= b <= 102 {
        Some((b - 87) as u8)
    } else if 65 <= b <= 70 {
        Some((b - 55) as u8)
    } else {
        None
    }
}

/// Percent-decoding of a byte string: every `%` followed by two hex digits
/// becomes that byte, and every other byte is kept as it is.
pub open spec fn pct_decoded(s: Seq<u8>) -> Seq<u8>
    decreases s.len(),
{
    if s.len() == 0 {
        Seq::empty()
    } else if s[0] == 37 && s.len() >= 3 && hexv(s[1]) is Some && hexv(s[2]) is Some {
        seq![(16 * hexv(s[1]).unwrap() + hexv(s[2]).unwrap()) as u8] + pct_decoded(s.skip(3))
    } else {
        seq![s[0]] + pct_decoded(s.drop_first())
    }
}

/// Relies on percent_encoding::percent_decode: each `%` with two hex
/// digits becomes the named byte, other bytes pass through.
#[verifier::external_body]
fn percent_decode_bytes(s: &str) -> (r: Vec<u8>)
    ensures
        r@ == pct_decoded(s.spec_bytes()),
{
    percent_encoding::percent_decode(s.as_bytes()).collect()
}

/// Relies on String::from_utf8: succeeds exactly on well-formed UTF-8,
/// returning the string with those bytes.
#[verifier::external_body]
fn bytes_to_string(v: Vec<u8>) -> (r: Option<String>)
    ensures
        r is Some <==> vstd::utf8::valid_utf8(v@),
        r matches Some(s) ==> crate::spec_bytes_of(s@) == v@,
{
    match String::from_utf8(v) {
        Ok(s) => Some(s),
        Err(_) => None,
    }
}

/// The upper-case hexadecimal digit of a value below sixteen.
pub open spec fn hex_upper(d: nat) -> char {
    if d < 10 {
        crate::xml::digit_char(d)
    } else if d == 10 {
        'A'
    } else if d == 11 {
        'B'
    } else if d == 12 {
        'C'
    } else if d == 13 {
        'D'
    } else if d == 14 {
        'E'
    } else {
        'F'
    }
}

/// Relies on percent_encoding::percent_encode_byte: a percent sign and
/// the byte's two upper-case hex digits.
#[verifier::external_body]
fn pct_byte(b: u8) -> (r: &'static str)
    ensures
        r@ == seq!['%', hex_upper((b / 16) as nat), hex_upper((b % 16) as nat)],
{
    percent_encoding::percent_encode_byte(b)
}

/// The bytes that cannot stand verbatim in a path segment of a URL:
/// controls, the byte of every non-ASCII character, and the segment's
/// delimiters.
pub open spec fn needs_pct(b: u8) -> bool {
    ||| b < 32
    ||| b >= 127
    ||| b == 32
    ||| b == 34
    ||| b == 35
    ||| b == 37
    ||| b == 47
    ||| b == 60
    ||| b == 62
    ||| b == 63
    ||| b == 96
    ||| b == 123
    ||| b == 125
}

fn needs_pct_exec(b: u8) -> (r: bool)
    ensures
        r == needs_pct(b),
{
    b < 32 || b >= 127 || b == 32 || b == 34 || b == 35 || b == 37 || b == 47 || b == 60 || b == 62
        || b == 63 || b == 96 || b == 123 || b == 125
}

/// A byte string percent-encoded for use as one path segment.
pub open spec fn pct_path(s: Seq<u8>) -> Seq<char>
    decreases s.len(),
{
    if s.len() == 0 {
        Seq::empty()
    } else {
        (if needs_pct(s[0]) {
            seq!['%', hex_upper((s[0] / 16) as nat), hex_upper((s[0] % 16) as nat)]
        } else {
            seq![s[0] as char]
        }) + pct_path(s.drop_first())
    }
}

proof fn lemma_pct_path_snoc(s: Seq<u8>, i: int)
    requires
        0 <= i < s.len(),
    ensures
        pct_path(s.take(i + 1)) == pct_path(s.take(i)) + (if needs_pct(s[i]) {
            seq!['%', hex_upper((s[i] / 16) as nat), hex_upper((s[i] % 16) as nat)]
        } else {
            seq![s[i] as char]
        }),
    decreases i,
{
    let piece = |b: u8|
        if needs_pct(b) {
            seq!['%', hex_upper((b / 16) as nat), hex_upper((b % 16) as nat)]
        } else {
            seq![b as char]
        };
    if i == 0 {
        assert(s.take(1)[0] == s[0]);
        assert(s.take(1).drop_first() =~= s.take(0));
        assert(pct_path(s.take(0)) =~= Seq::<char>::empty());
        assert(piece(s[0]) + Seq::<char>::empty() =~= piece(s[0]));
        assert(Seq::<char>::empty() + piece(s[0]) =~= piece(s[0]));
    } else {
        lemma_pct_path_snoc(s.drop_first(), i - 1);
        assert(s.take(i + 1)[0] == s[0]);
        assert(s.take(i + 1).drop_first() =~= s.drop_first().take(i));
        assert(s.take(i)[0] == s[0]);
        assert(s.take(i).drop_first() =~= s.drop_first().take(i - 1));
        assert(s.drop_first()[i - 1] == s[i]);
        assert(piece(s[0]) + (pct_path(s.drop_first().take(i - 1)) + piece(s[i])) =~= (piece(s[0])
            + pct_path(s.drop_first().take(i - 1))) + piece(s[i]));
    }
}

/// Percent-encodes an id for use as one path segment of a URL.
pub fn percent_encode_path(s: &str) -> (r: String)
    ensures
        r@ == pct_path(s.spec_bytes()),
{
    let bytes = s.as_bytes_vec();
    let mut r = String::new();
    let mut i: usize = 0;
    proof {
        assert(pct_path(bytes@.take(0)) =~= Seq::<char>::empty());
    }
    while i < bytes.len()
        invariant
            0 <= i <= bytes@.len(),
            bytes@ == s.spec_bytes(),
            r@ == pct_path(bytes@.take(i as int)),
        decreases bytes@.len() - i,
    {
        proof {
            lemma_pct_path_snoc(bytes@, i as int);
        }
        let b = bytes[i];
        if needs_pct_exec(b) {
            r.append(pct_byte(b));
        } else {
            r.push(b as char);
            proof {
                assert(pct_path(bytes@.take(i as int)).push(b as char) =~= pct_path(
                    bytes@.take(i as int),
                ) + seq![b as char]);
            }
        }
        i = i + 1;
    }
    proof {
        assert(bytes@.take(bytes@.len() as int) =~= bytes@);
    }
    r
}

/// The byte codes of an ASCII text, such as a percent-encoded path.
pub open spec fn char_codes(s: Seq<char>) -> Seq<u8> {
    s.map_values(|c: char| c as u8)
}

proof fn lemma_hexv_roundtrip(d: nat)
    requires
        d < 16,
    ensures
        hexv(hex_upper(d) as u8) == Some(d as u8),
{
}

/// Decoding an encoded path segment gives the original bytes back: the
/// object ids the server writes into resource URLs come back intact when
/// a renderer requests them.
pub proof fn lemma_pct_path_roundtrip(b: Seq<u8>)
    ensures
        pct_decoded(char_codes(pct_path(b))) == b,
    decreases b.len(),
{
    if b.len() == 0 {
        assert(char_codes(pct_path(b)) =~= Seq::<u8>::empty());
        assert(pct_decoded(char_codes(pct_path(b))) =~= b);
    } else {
        let b0 = b[0];
        let tail = b.drop_first();
        lemma_pct_path_roundtrip(tail);
        let rest = char_codes(pct_path(tail));
        if needs_pct(b0) {
            lemma_hexv_roundtrip((b0 / 16) as nat);
            lemma_hexv_roundtrip((b0 % 16) as nat);
            let codes = char_codes(pct_path(b));
            assert(codes =~= seq![
                '%' as u8,
                hex_upper((b0 / 16) as nat) as u8,
                hex_upper((b0 % 16) as nat) as u8,
            ] + rest);
            assert(codes[0] == 37);
            assert(hexv(codes[1]) == Some((b0 / 16) as u8));
            assert(hexv(codes[2]) == Some((b0 % 16) as u8));
            assert(codes.skip(3) =~= rest);
            assert(16 * (b0 / 16) + (b0 % 16) == b0);
            assert(seq![(16 * hexv(codes[1]).unwrap() + hexv(codes[2]).unwrap()) as u8]
                + pct_decoded(rest) =~= b);
        } else {
            let codes = char_codes(pct_path(b));
            assert(codes =~= seq![(b0 as char) as u8] + rest);
            assert((b0 as char) as u8 == b0);
            assert(codes[0] != 37);
            assert(codes.drop_first() =~= rest);
            assert(seq![codes[0]] + pct_decoded(rest) =~= b);
        }
    }
}

/// A request path being walked segment by segment.
#[derive(Debug)]
pub struct Request {
    pub path: String,
    pub path_offset: usize,
}

impl Request {
    /// The cursor never passes the end of the path.
    pub open spec fn wf(self) -> bool {
        self.path_offset <= self.path@.len()
    }

    /// Starts walking a request path, past its leading slash.
    pub fn new(path: String) -> (r: Request)
        ensures
            r.wf(),
            r.path == path,
            r.path_offset as int == if path@.len() > 0 && path@[0] == '/' {
                1int
            } else {
                0int
            },
    {
        let n = path.as_str().unicode_len();
        let offset: usize = if n > 0 && path.as_str().get_char(0) == '/' {
            1
        } else {
            0
        };
        Request { path, path_offset: offset }
    }

    /// What is left of the path.
    pub fn path(&self) -> (r: &str)
        requires
            self.wf(),
        ensures
            r@ == self.path@.skip(self.path_offset as int),
    {
        let n = self.path.as_str().unicode_len();
        let r = self.path.as_str().substring_char(self.path_offset, n);
        proof {
            assert(self.path@.subrange(self.path_offset as int, n as int) =~= self.path@.skip(
                self.path_offset as int,
            ));
        }
        r
    }

    /// Takes the next `/`-separated segment off the front of what is left.
    pub fn pop(&mut self) -> (r: String)
        requires
            old(self).wf(),
        ensures
            final(self).wf(),
            final(self).path == old(self).path,
            r@ == old(self).path@.skip(old(self).path_offset as int).take(
                crate::local::seg_len(old(self).path@.skip(old(self).path_offset as int)),
            ),
            final(self).path_offset as int == {
                let rest = old(self).path@.skip(old(self).path_offset as int);
                let k = crate::local::seg_len(rest);
                if k < rest.len() {
                    old(self).path_offset + k + 1
                } else {
                    old(self).path@.len() as int
                }
            },
    {
        let chars = crate::chars_of(self.path.as_str());
        let total = chars.len();
        let k = crate::local::seg_len_at(&chars, self.path_offset);
        let chunk = self.path.as_str().substring_char(self.path_offset, self.path_offset + k);
        proof {
            assert(self.path@.subrange(
                self.path_offset as int,
                self.path_offset + k,
            ) =~= self.path@.skip(self.path_offset as int).take(k as int));
        }
        let r = String::from_str(chunk);
        if self.path_offset + k < total {
            self.path_offset = self.path_offset + k + 1;
        } else {
            self.path_offset = total;
        }
        r
    }

    /// Percent-decodes what is left of the path into an object id; fails
    /// when the decoded bytes are not a well-formed text.
    pub fn decoded_path(&self) -> (r: Result<String, crate::error::Error>)
        requires
            self.wf(),
        ensures
            match r {
                Ok(s) => crate::spec_bytes_of(s@) == pct_decoded(
                    crate::spec_bytes_of(self.path@.skip(self.path_offset as int)),
                ),
                Err(e) => e is Utf8 && !vstd::utf8::valid_utf8(
                    pct_decoded(crate::spec_bytes_of(self.path@.skip(self.path_offset as int))),
                ),
            },
    {
        let rest = self.path();
        let bytes = percent_decode_bytes(rest);
        match bytes_to_string(bytes) {
            Some(s) => Ok(s),
            None => Err(crate::error::Error::Utf8),
        }
    }
}

} // verus!
