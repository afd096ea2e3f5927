//! Codec for the SQL dialect's quoted string literals.
//!
//! `encode` wraps raw bytes in single quotes and escapes every byte outside
//! the printable ASCII range, as well as the quote, the backslash and the
//! double quote. `decode` reverses the quoting and escaping; it also accepts
//! the dialect's doubled-quote form `''`. Decoding an encoded value gives the
//! original bytes back exactly (`lemma_round_trip`).

use vstd::prelude::*;
use vstd::string::StrSliceExecFns;
use vstd::string::StringSliceAdditionalSpecFns;

verus! {

pub const QUOTE: u8 = 39;
pub const BACKSLASH: u8 = 92;

/// Lowercase hexadecimal digit for a value below sixteen.
pub open spec fn hex_digit(n: u8) -> u8 {
    if n < 10 {
        (48 + n) as u8
    } else {
        (87 + n) as u8
    }
}

pub open spec fn is_hex_digit(b: u8) -> bool {
    (48 <= b && b <= 57) || (97 <= b && b <= 102)
}

pub open spec fn hex_value(b: u8) -> u8 {
    if b < 58 {
        (b - 48) as u8
    } else {
        (b - 87) as u8
    }
}

/// How the encoder writes one raw byte.
pub open spec fn escape_byte(b: u8) -> Seq<u8> {
    if b == 9 {
        seq![BACKSLASH, 116u8]  // \t
    } else if b == 13 {
        seq![BACKSLASH, 114u8]  // \r
    } else if b == 10 {
        seq![BACKSLASH, 110u8]  // \n
    } else if b == BACKSLASH {
        seq![BACKSLASH, BACKSLASH]
    } else if b == QUOTE {
        seq![BACKSLASH, QUOTE]
    } else if b == 34 {
        seq![BACKSLASH, 34u8]  // \"
    } else if 32 <= b && b <= 126 {
        seq![b]
    } else {
        seq![BACKSLASH, 120u8, hex_digit(b / 16), hex_digit(b % 16)]  // \xhh
    }
}

pub open spec fn escape_bytes(s: Seq<u8>) -> Seq<u8>
    decreases s.len(),
{
    if s.len() == 0 {
        Seq::empty()
    } else {
        escape_byte(s[0]) + escape_bytes(s.skip(1))
    }
}

/// The full encoded literal: quote, escaped body, quote.
pub open spec fn encode_spec(s: Seq<u8>) -> Seq<u8> {
    seq![QUOTE] + escape_bytes(s) + seq![QUOTE]
}

pub open spec fn prepend(b: u8, rest: Option<Seq<u8>>) -> Option<Seq<u8>> {
    match rest {
        Some(s) => Some(seq![b] + s),
        None => None,
    }
}

/// Unescaping of a literal's body (the text between the outer quotes).
///
/// A lone quote can only appear doubled; a backslash starts an escape.
/// `\t`, `\r`, `\n` and `\0` name control bytes, `\xhh` any byte in
/// lowercase hexadecimal, and a backslash before any other byte yields that
/// byte itself, as the dialect reads it.
pub open spec fn unescape(body: Seq<u8>) -> Option<Seq<u8>>
    decreases body.len(),
{
    if body.len() == 0 {
        Some(Seq::empty())
    } else if body[0] == QUOTE {
        if body.len() >= 2 && body[1] == QUOTE {
            prepend(QUOTE, unescape(body.skip(2)))
        } else {
            None
        }
    } else if body[0] == BACKSLASH {
        if body.len() < 2 {
            None
        } else if body[1] == 116 {
            prepend(9, unescape(body.skip(2)))
        } else if body[1] == 114 {
            prepend(13, unescape(body.skip(2)))
        } else if body[1] == 110 {
            prepend(10, unescape(body.skip(2)))
        } else if body[1] == 48 {
            prepend(0, unescape(body.skip(2)))
        } else if body[1] == 120 {
            if body.len() >= 4 && is_hex_digit(body[2]) && is_hex_digit(body[3]) {
                prepend(
                    (16 * hex_value(body[2]) + hex_value(body[3])) as u8,
                    unescape(body.skip(4)),
                )
            } else {
                None
            }
        } else {
            prepend(body[1], unescape(body.skip(2)))
        }
    } else {
        prepend(body[0], unescape(body.skip(1)))
    }
}

/// Decoding of a whole literal: outer quotes, then the unescaped body.
pub open spec fn decode_spec(t: Seq<u8>) -> Option<Seq<u8>> {
    if t.len() >= 2 && t[0] == QUOTE && t[t.len() - 1] == QUOTE {
        unescape(t.subrange(1, t.len() - 1))
    } else {
        None
    }
}

proof fn lemma_unescape_escape(x: Seq<u8>)
    ensures
        unescape(escape_bytes(x)) == Some(x),
    decreases x.len(),
{
    if x.len() == 0 {
        assert(x =~= Seq::<u8>::empty());
    } else {
        let b = x[0];
        let rest = x.skip(1);
        lemma_unescape_escape(rest);
        let eb = escape_byte(b);
        let tail = escape_bytes(rest);
        let whole = escape_bytes(x);
        assert(whole == eb + tail);
        if eb.len() == 1 {
            assert(whole.skip(1) =~= tail);
            assert(whole[0] == b && b != QUOTE && b != BACKSLASH);
            assert(seq![b] + rest =~= x);
        } else if eb.len() == 2 {
            assert(whole.skip(2) =~= tail);
            assert(whole[0] == BACKSLASH);
            if b == 9 {
                assert(whole[1] == 116);
                assert(seq![9u8] + rest =~= x);
            } else if b == 13 {
                assert(whole[1] == 114);
                assert(seq![13u8] + rest =~= x);
            } else if b == 10 {
                assert(whole[1] == 110);
                assert(seq![10u8] + rest =~= x);
            } else {
                assert(b == BACKSLASH || b == QUOTE || b == 34);
                assert(whole[1] == b);
                assert(seq![b] + rest =~= x);
            }
        } else {
            assert(eb.len() == 4);
            assert(whole.skip(4) =~= tail);
            assert(whole[0] == BACKSLASH && whole[1] == 120);
            let hi = b / 16;
            let lo = b % 16;
            assert(hi < 16 && lo < 16);
            assert(is_hex_digit(hex_digit(hi)) && is_hex_digit(hex_digit(lo)));
            assert(hex_value(hex_digit(hi)) == hi && hex_value(hex_digit(lo)) == lo);
            assert(whole[2] == hex_digit(hi) && whole[3] == hex_digit(lo));
            assert(16 * (b / 16) + b % 16 == b);
            assert(seq![b] + rest =~= x);
        }
    }
}

/// Round-trip law: decoding an encoded value reproduces the bytes exactly.
pub proof fn lemma_round_trip(x: Seq<u8>)
    ensures
        decode_spec(encode_spec(x)) == Some(x),
{
    lemma_unescape_escape(x);
    let t = encode_spec(x);
    assert(t.len() == escape_bytes(x).len() + 2);
    assert(t[0] == QUOTE);
    assert(t[t.len() - 1] == QUOTE);
    assert(t.subrange(1, t.len() - 1) =~= escape_bytes(x));
}

proof fn lemma_escape_bytes_printable(x: Seq<u8>)
    ensures
        forall|i: int|
            0 <= i < escape_bytes(x).len() ==> 32 <= #[trigger] escape_bytes(x)[i] <= 126,
    decreases x.len(),
{
    if x.len() > 0 {
        lemma_escape_bytes_printable(x.skip(1));
        let eb = escape_byte(x[0]);
        assert(forall|i: int| 0 <= i < eb.len() ==> 32 <= #[trigger] eb[i] <= 126);
        assert(forall|i: int|
            eb.len() <= i < escape_bytes(x).len() ==> escape_bytes(x)[i] == escape_bytes(
                x.skip(1),
            )[i - eb.len()]);
    }
}

/// Every byte of an encoded literal is printable ASCII: control bytes and
/// bytes at or above 0x80 never appear unescaped.
pub proof fn lemma_encode_printable(x: Seq<u8>)
    ensures
        forall|i: int|
            0 <= i < encode_spec(x).len() ==> 32 <= #[trigger] encode_spec(x)[i] <= 126,
{
    lemma_escape_bytes_printable(x);
    assert forall|i: int| 0 <= i < encode_spec(x).len() implies 32 <= #[trigger] encode_spec(
        x,
    )[i] <= 126 by {
        if 1 <= i < encode_spec(x).len() - 1 {
            assert(encode_spec(x)[i] == escape_bytes(x)[i - 1]);
        }
    }
}

proof fn lemma_escape_bytes_push(s: Seq<u8>, b: u8)
    ensures
        escape_bytes(s.push(b)) == escape_bytes(s) + escape_byte(b),
    decreases s.len(),
{
    if s.len() == 0 {
        assert(s.push(b).skip(1) =~= Seq::<u8>::empty());
        assert(s =~= Seq::<u8>::empty());
        assert(escape_bytes(s.push(b)) =~= escape_bytes(s) + escape_byte(b));
    } else {
        lemma_escape_bytes_push(s.skip(1), b);
        assert(s.push(b).skip(1) =~= s.skip(1).push(b));
        assert(s.push(b)[0] == s[0]);
        assert(escape_bytes(s.push(b)) =~= escape_bytes(s) + escape_byte(b));
    }
}

/// A decoded string literal: the raw bytes of the value itself, without the
/// dialect's quoting and escaping.
pub struct MySqlString(pub Vec<u8>);

impl View for MySqlString {
    type V = Seq<u8>;

    open spec fn view(&self) -> Seq<u8> {
        self.0@
    }
}

/// The text handed to the decoder was not a well-formed string literal.
#[derive(Clone, Copy, Debug)]
pub struct CodecError;

fn push_escaped(out: &mut Vec<u8>, b: u8)
    ensures
        final(out)@ == old(out)@ + escape_byte(b),
{
    if b == 9 {
        out.push(BACKSLASH);
        out.push(116);
    } else if b == 13 {
        out.push(BACKSLASH);
        out.push(114);
    } else if b == 10 {
        out.push(BACKSLASH);
        out.push(110);
    } else if b == BACKSLASH {
        out.push(BACKSLASH);
        out.push(BACKSLASH);
    } else if b == QUOTE {
        out.push(BACKSLASH);
        out.push(QUOTE);
    } else if b == 34 {
        out.push(BACKSLASH);
        out.push(34);
    } else if 32 <= b && b <= 126 {
        out.push(b);
    } else {
        let hi = b / 16;
        let lo = b % 16;
        out.push(BACKSLASH);
        out.push(120);
        out.push(if hi < 10 { 48 + hi } else { 87 + hi });
        out.push(if lo < 10 { 48 + lo } else { 87 + lo });
    }
    assert(out@ =~= old(out)@ + escape_byte(b));
}

/// Encodes raw bytes as a quoted literal of the dialect.
pub fn encode_bytes(raw: &Vec<u8>) -> (r: Vec<u8>)
    ensures
        r@ == encode_spec(raw@),
        forall|i: int| 0 <= i < r@.len() ==> 32 <= #[trigger] r@[i] <= 126,
{
    let mut out: Vec<u8> = Vec::new();
    out.push(QUOTE);
    let mut i: usize = 0;
    while i < raw.len()
        invariant
            0 <= i <= raw@.len(),
            out@ == seq![QUOTE] + escape_bytes(raw@.take(i as int)),
        decreases raw@.len() - i,
    {
        push_escaped(&mut out, raw[i]);
        proof {
            lemma_escape_bytes_push(raw@.take(i as int), raw@[i as int]);
            assert(raw@.take(i + 1) =~= raw@.take(i as int).push(raw@[i as int]));
        }
        i += 1;
    }
    out.push(QUOTE);
    proof {
        assert(raw@.take(raw@.len() as int) =~= raw@);
        assert(out@ =~= encode_spec(raw@));
        lemma_encode_printable(raw@);
    }
    out
}

impl MySqlString {
    /// Encodes the raw value back into a quoted literal.
    pub fn encode(&self) -> (r: Vec<u8>)
        ensures
            r@ == encode_spec(self@),
            forall|i: int| 0 <= i < r@.len() ==> 32 <= #[trigger] r@[i] <= 126,
    {
        encode_bytes(&self.0)
    }

    /// Decodes a quoted literal given as text.
    pub fn from_str(s: &str) -> (r: Result<MySqlString, CodecError>)
        ensures
            match r {
                Ok(m) => decode_spec(s.spec_bytes()) == Some(m@),
                Err(_) => decode_spec(s.spec_bytes()) is None,
            },
    {
        let v = s.as_bytes_vec();
        MySqlString::decode(&v)
    }

    /// Decodes a quoted literal into the raw bytes it denotes.
    pub fn decode(raw: &Vec<u8>) -> (r: Result<MySqlString, CodecError>)
        ensures
            match r {
                Ok(m) => decode_spec(raw@) == Some(m@),
                Err(_) => decode_spec(raw@) is None,
            },
    {
        let n = raw.len();
        if n < 2 || raw[0] != QUOTE || raw[n - 1] != QUOTE {
            return Err(CodecError);
        }
        let ghost body = raw@.subrange(1, n - 1);
        let mut out: Vec<u8> = Vec::new();
        let mut i: usize = 1;
        while i < n - 1
            invariant
                1 <= i <= n - 1,
                n == raw@.len(),
                n >= 2,
                body == raw@.subrange(1, n - 1),
                unescape(body) == match unescape(raw@.subrange(i as int, n - 1)) {
                    Some(s) => Some(out@ + s),
                    None => None::<Seq<u8>>,
                },
            decreases n - i,
        {
            let ghost pending = raw@.subrange(i as int, n - 1);
            let b = raw[i];
            assert(pending[0] == b);
            if b == QUOTE {
                if i + 1 < n - 1 && raw[i + 1] == QUOTE {
                    assert(pending.len() >= 2 && pending[1] == QUOTE);
                    assert(pending.skip(2) =~= raw@.subrange(i + 2, n - 1));
                    out.push(QUOTE);
                    i += 2;
                } else {
                    assert(!(pending.len() >= 2 && pending[1] == QUOTE));
                    assert(unescape(pending) is None);
                    return Err(CodecError);
                }
            } else if b == BACKSLASH {
                if i + 1 >= n - 1 {
                    assert(pending.len() < 2);
                    assert(unescape(pending) is None);
                    return Err(CodecError);
                }
                let e = raw[i + 1];
                assert(pending.len() >= 2 && pending[1] == e);
                if e == 116 {
                    assert(pending.skip(2) =~= raw@.subrange(i + 2, n - 1));
                    out.push(9);
                    i += 2;
                } else if e == 114 {
                    assert(pending.skip(2) =~= raw@.subrange(i + 2, n - 1));
                    out.push(13);
                    i += 2;
                } else if e == 110 {
                    assert(pending.skip(2) =~= raw@.subrange(i + 2, n - 1));
                    out.push(10);
                    i += 2;
                } else if e == 48 {
                    assert(pending.skip(2) =~= raw@.subrange(i + 2, n - 1));
                    out.push(0);
                    i += 2;
                } else if e == 120 {
                    if i + 3 < n - 1 && is_hex_exec(raw[i + 2]) && is_hex_exec(raw[i + 3]) {
                        let h1 = raw[i + 2];
                        let h2 = raw[i + 3];
                        assert(pending.len() >= 4 && pending[2] == h1 && pending[3] == h2);
                        assert(pending.skip(4) =~= raw@.subrange(i + 4, n - 1));
                        let v1 = if h1 < 58 {
                            h1 - 48
                        } else {
                            h1 - 87
                        };
                        let v2 = if h2 < 58 {
                            h2 - 48
                        } else {
                            h2 - 87
                        };
                        assert(v1 == hex_value(h1) && v2 == hex_value(h2));
                        assert(v1 < 16 && v2 < 16);
                        out.push(16 * v1 + v2);
                        i += 4;
                    } else {
                        assert(!(pending.len() >= 4 && is_hex_digit(pending[2])
                            && is_hex_digit(pending[3]))) by {
                            if i + 3 < n - 1 {
                                assert(pending[2] == raw@[i + 2] && pending[3] == raw@[i + 3]);
                            }
                        }
                        assert(unescape(pending) is None);
                        return Err(CodecError);
                    }
                } else {
                    assert(pending.skip(2) =~= raw@.subrange(i + 2, n - 1));
                    out.push(e);
                    i += 2;
                }
            } else {
                assert(pending.skip(1) =~= raw@.subrange(i + 1, n - 1));
                out.push(b);
                i += 1;
            }
        }
        proof {
            assert(raw@.subrange(n - 1, n - 1) =~= Seq::<u8>::empty());
            assert(unescape(raw@.subrange(i as int, n - 1)) == Some(Seq::<u8>::empty()));
            assert(out@ + Seq::<u8>::empty() =~= out@);
        }
        Ok(MySqlString(out))
    }
}

fn is_hex_exec(b: u8) -> (r: bool)
    ensures
        r == is_hex_digit(b),
{
    (48 <= b && b <= 57) || (97 <= b && b <= 102)
}

} // verus!
