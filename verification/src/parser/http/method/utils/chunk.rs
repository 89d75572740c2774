//! The chunked-transfer codec: encoding a body as size-prefixed chunks
//! of eight characters, and decoding size-prefixed chunk lines back
//! into a body.
//!
//! The encoder frames chunks with the literal four-character text
//! `\r\n` — backslash, `r`, backslash, `n` — not the CR LF control
//! bytes; a deliberate quirk of this server's wire format.

use crate::parser::http::BodyLines;
use crate::text::{
    parse_usize_hex, spec_dec_digits, spec_digit_char, spec_parse_usize_hex, usize_to_string,
};
use vstd::prelude::*;

verus! {

/// The encoding of `s`: for each run of up to eight characters, its
/// length, the framing text, the run, the framing text again; the
/// zero-length marker closes every body, so an empty body encodes to
/// just the marker.
pub open spec fn spec_chunk_encode(s: Seq<char>) -> Seq<char>
    decreases s.len(),
{
    if s.len() == 0 {
        "0\\r\\n"@
    } else if s.len() > 8 {
        "8\\r\\n"@ + s.take(8) + "\\r\\n"@ + spec_chunk_encode(s.skip(8))
    } else {
        spec_dec_digits(s.len() as int) + "\\r\\n"@ + s + "\\r\\n"@ + "0\\r\\n"@
    }
}

/// Encodes `s` in chunks of eight characters, as [`spec_chunk_encode`]
/// describes.
pub fn string_to_chunk(input: &str) -> (r: String)
    ensures
        r@ == spec_chunk_encode(input@),
{
    let len = input.unicode_len();
    if len == 0 {
        return String::from_str("0\\r\\n");
    }
    let mut s = String::new();
    let mut pos: usize = 0;
    proof {
        assert(input@.skip(0) =~= input@);
    }
    while pos < len
        invariant
            len == input@.len(),
            len > 0,
            pos <= len,
            pos < len ==> spec_chunk_encode(input@) == s@ + spec_chunk_encode(
                input@.skip(pos as int),
            ),
            pos == len ==> s@ == spec_chunk_encode(input@),
        decreases len - pos,
    {
        let ghost rem = input@.skip(pos as int);
        let ghost s0 = s@;
        if len - pos > 8 {
            s.append("8\\r\\n");
            s.append(input.substring_char(pos, pos + 8));
            s.append("\\r\\n");
            proof {
                assert(input@.subrange(pos as int, pos + 8) =~= rem.take(8));
                assert(rem.skip(8) =~= input@.skip(pos + 8));
                assert(spec_chunk_encode(rem) == "8\\r\\n"@ + rem.take(8) + "\\r\\n"@
                    + spec_chunk_encode(rem.skip(8)));
                assert(s@ + spec_chunk_encode(input@.skip(pos + 8)) =~= s0 + spec_chunk_encode(
                    rem,
                ));
            }
            pos = pos + 8;
            proof {
                assert(pos < len);
            }
        } else {
            let m = len - pos;
            let digits = usize_to_string(m);
            s.append(digits.as_str());
            s.append("\\r\\n");
            s.append(input.substring_char(pos, len));
            s.append("\\r\\n");
            s.append("0\\r\\n");
            proof {
                assert(input@.subrange(pos as int, len as int) =~= rem);
                assert(spec_chunk_encode(rem) == spec_dec_digits(m as int) + "\\r\\n"@ + rem
                    + "\\r\\n"@ + "0\\r\\n"@);
                assert(s@ =~= s0 + spec_chunk_encode(rem));
            }
            pos = len;
        }
    }
    s
}

/// The header before each block of a byte-chunked body: CR LF, the
/// block size as one digit byte, CR LF.
pub open spec fn spec_chunk_header(n: int) -> Seq<u8> {
    seq![13u8, 10u8, (48 + n) as u8, 13u8, 10u8]
}

/// The blocks of a byte body, each preceded by its header.
pub open spec fn spec_vec_chunk_body(input: Seq<u8>) -> Seq<u8>
    decreases input.len(),
{
    if input.len() == 0 {
        Seq::empty()
    } else if input.len() > 8 {
        spec_chunk_header(8) + input.take(8) + spec_vec_chunk_body(input.skip(8))
    } else {
        spec_chunk_header(input.len() as int) + input
    }
}

/// The encoding of a byte body: its blocks, then the closing
/// zero-length header.
pub open spec fn spec_vec_to_chunk(input: Seq<u8>) -> Seq<u8> {
    spec_vec_chunk_body(input) + seq![13u8, 10u8, 48u8, 13u8, 10u8]
}

/// Encodes raw bytes in blocks of eight with real CR LF framing, as
/// [`spec_vec_to_chunk`] describes.
pub fn vec_to_chunk(input: &Vec<u8>) -> (r: Vec<u8>)
    ensures
        r@ == spec_vec_to_chunk(input@),
{
    let len = input.len();
    let mut s: Vec<u8> = Vec::new();
    let mut pos: usize = 0;
    proof {
        assert(input@.skip(0) =~= input@);
        assert(s@ =~= Seq::<u8>::empty());
    }
    while pos < len
        invariant
            len == input@.len(),
            pos <= len,
            spec_vec_chunk_body(input@) == s@ + spec_vec_chunk_body(input@.skip(pos as int)),
        decreases len - pos,
    {
        let ghost rem = input@.skip(pos as int);
        let ghost s0 = s@;
        let m = if len - pos > 8 {
            8
        } else {
            len - pos
        };
        s.push(13u8);
        s.push(10u8);
        s.push(48u8 + m as u8);
        s.push(13u8);
        s.push(10u8);
        proof {
            assert(s@ =~= s0 + spec_chunk_header(m as int));
        }
        let ghost s1 = s@;
        let mut j: usize = 0;
        while j < m
            invariant
                m <= len - pos,
                pos + m <= len,
                len == input@.len(),
                j <= m,
                s@ == s1 + input@.subrange(pos as int, pos + j),
            decreases m - j,
        {
            s.push(input[pos + j]);
            proof {
                assert(s@ =~= s1 + input@.subrange(pos as int, pos + j + 1));
            }
            j = j + 1;
        }
        proof {
            if rem.len() > 8 {
                assert(input@.subrange(pos as int, pos + m) =~= rem.take(8));
                assert(rem.skip(8) =~= input@.skip(pos + 8));
                assert(s@ + spec_vec_chunk_body(input@.skip(pos + 8)) =~= s0 + spec_vec_chunk_body(
                    rem,
                ));
            } else {
                assert(input@.subrange(pos as int, pos + m) =~= rem);
                assert(spec_vec_chunk_body(rem) == spec_chunk_header(rem.len() as int) + rem);
                assert(input@.skip(len as int).len() == 0);
                assert(s@ + spec_vec_chunk_body(input@.skip(len as int)) =~= s0
                    + spec_vec_chunk_body(rem));
            }
        }
        pos = pos + m;
    }
    proof {
        assert(spec_vec_chunk_body(input@.skip(len as int)) == Seq::<u8>::empty());
        assert(s@ =~= spec_vec_chunk_body(input@));
    }
    s.push(13u8);
    s.push(10u8);
    s.push(48u8);
    s.push(13u8);
    s.push(10u8);
    proof {
        assert(s@ =~= spec_vec_to_chunk(input@));
    }
    s
}

/// What decoding a sequence of lines yields: the reassembled content,
/// and the lines left unread. Each size line is read as hexadecimal; a
/// zero size ends the body; a content line whose character count does
/// not match its declared size aborts decoding, keeping what was
/// reassembled so far.
pub open spec fn spec_chunk_decode(lines: Seq<Seq<char>>) -> (Seq<char>, Seq<Seq<char>>)
    decreases lines.len(),
{
    if lines.len() == 0 {
        (Seq::empty(), Seq::empty())
    } else {
        match spec_parse_usize_hex(lines[0]) {
            None => (Seq::empty(), lines.drop_first()),
            Some(n) => if n == 0 {
                (Seq::empty(), lines.drop_first())
            } else if lines.len() == 1 {
                (Seq::empty(), Seq::empty())
            } else if lines[1].len() == n {
                let r = spec_chunk_decode(lines.skip(2));
                (lines[1] + r.0, r.1)
            } else {
                (Seq::empty(), lines.skip(2))
            },
        }
    }
}

// ---------------------------------------------------------------------------
// The round trip between encoder and decoder
// ---------------------------------------------------------------------------

/// The runs of up to eight characters the encoder cuts `s` into.
pub open spec fn spec_chunk_pieces(s: Seq<char>) -> Seq<Seq<char>>
    decreases s.len(),
{
    if s.len() == 0 {
        Seq::empty()
    } else if s.len() > 8 {
        seq![s.take(8)] + spec_chunk_pieces(s.skip(8))
    } else {
        seq![s]
    }
}

/// The lines the encoder declares: each run's length before the run,
/// and the zero line that ends the body.
pub open spec fn spec_chunk_lines_of(pieces: Seq<Seq<char>>) -> Seq<Seq<char>>
    decreases pieces.len(),
{
    if pieces.len() == 0 {
        seq!["0"@]
    } else {
        seq![spec_dec_digits(pieces[0].len() as int), pieces[0]] + spec_chunk_lines_of(
            pieces.drop_first(),
        )
    }
}

/// The lines the encoding of `s` declares.
pub open spec fn spec_chunk_lines(s: Seq<char>) -> Seq<Seq<char>> {
    spec_chunk_lines_of(spec_chunk_pieces(s))
}

spec fn spec_concat(pieces: Seq<Seq<char>>) -> Seq<char>
    decreases pieces.len(),
{
    if pieces.len() == 0 {
        Seq::empty()
    } else {
        pieces[0] + spec_concat(pieces.drop_first())
    }
}

proof fn lemma_pieces_concat(s: Seq<char>)
    ensures
        spec_concat(spec_chunk_pieces(s)) == s,
    decreases s.len(),
{
    if s.len() == 0 {
        assert(spec_concat(spec_chunk_pieces(s)) =~= s);
    } else if s.len() > 8 {
        lemma_pieces_concat(s.skip(8));
        let p = spec_chunk_pieces(s);
        assert(p == seq![s.take(8)] + spec_chunk_pieces(s.skip(8)));
        assert(p.len() >= 1);
        assert(p[0] == s.take(8));
        assert(p.drop_first() =~= spec_chunk_pieces(s.skip(8)));
        assert(spec_concat(p) == p[0] + spec_concat(p.drop_first()));
        assert(spec_concat(p.drop_first()) == s.skip(8));
        assert(s.take(8) + s.skip(8) =~= s);
    } else {
        let p = spec_chunk_pieces(s);
        assert(p.len() == 1);
        assert(p[0] == s);
        assert(p.drop_first() =~= Seq::<Seq<char>>::empty());
        assert(spec_concat(p) == s + spec_concat(p.drop_first()));
        assert(s + Seq::<char>::empty() =~= s);
    }
}

proof fn lemma_pieces_sizes(s: Seq<char>)
    ensures
        forall|i: int|
            0 <= i < spec_chunk_pieces(s).len() ==> 1 <= (#[trigger] spec_chunk_pieces(
                s,
            )[i]).len() <= 8,
    decreases s.len(),
{
    if s.len() > 8 {
        lemma_pieces_sizes(s.skip(8));
        let p = spec_chunk_pieces(s);
        assert forall|i: int| 0 <= i < p.len() implies 1 <= (#[trigger] p[i]).len() <= 8 by {
            if i > 0 {
                assert(p[i] == spec_chunk_pieces(s.skip(8))[i - 1]);
            }
        }
    }
}

/// A single digit line declares its own value in hexadecimal.
proof fn lemma_digit_parses(n: int)
    requires
        0 <= n <= 9,
    ensures
        spec_parse_usize_hex(spec_dec_digits(n)) == Some(n as usize),
{
    let d = spec_dec_digits(n);
    assert(d == seq![spec_digit_char(n)]);
    let c = spec_digit_char(n);
    assert(c as u32 == 48 + n) by {
        if n == 0 {
            assert(c == '0');
        } else if n == 1 {
            assert(c == '1');
        } else if n == 2 {
            assert(c == '2');
        } else if n == 3 {
            assert(c == '3');
        } else if n == 4 {
            assert(c == '4');
        } else if n == 5 {
            assert(c == '5');
        } else if n == 6 {
            assert(c == '6');
        } else if n == 7 {
            assert(c == '7');
        } else if n == 8 {
            assert(c == '8');
        } else {
            assert(c == '9');
        }
    }
    assert(c as u32 >= '0' as u32 && c as u32 <= '9' as u32);
    assert(c != '+') by {
        assert('+' as u32 == 43);
    }
    assert(d[0] == c);
    assert(crate::text::spec_num_body(d) == d);
    assert(crate::text::spec_all_hex_digits(d));
    assert(d.drop_last() =~= Seq::<char>::empty());
    assert(crate::text::spec_hex_value(d.drop_last()) == 0);
    assert(d.last() == c);
    assert(crate::text::spec_hex_value(d) == 0 * 16 + crate::text::spec_hex_digit_val(c));
    assert(crate::text::spec_hex_digit_val(c) == n);
}

/// Decoding well-formed declared lines reassembles every run and
/// consumes everything up to and including the zero line.
proof fn lemma_decode_lines(pieces: Seq<Seq<char>>)
    requires
        forall|i: int| 0 <= i < pieces.len() ==> 1 <= (#[trigger] pieces[i]).len() <= 8,
    ensures
        spec_chunk_decode(spec_chunk_lines_of(pieces)).0 == spec_concat(pieces),
        spec_chunk_decode(spec_chunk_lines_of(pieces)).1 == Seq::<Seq<char>>::empty(),
    decreases pieces.len(),
{
    let lines = spec_chunk_lines_of(pieces);
    if pieces.len() == 0 {
        reveal_strlit("0");
        assert("0"@ =~= seq!['0']);
        lemma_digit_parses(0);
        assert(spec_dec_digits(0) =~= "0"@);
        assert(spec_parse_usize_hex(lines[0]) == Some(0usize));
        assert(lines.drop_first() =~= Seq::<Seq<char>>::empty());
        assert(spec_concat(pieces) =~= Seq::<char>::empty());
    } else {
        let n = pieces[0].len() as int;
        lemma_digit_parses(n);
        assert(lines[0] == spec_dec_digits(n));
        assert(spec_parse_usize_hex(lines[0]) == Some(n as usize));
        assert(lines[1] == pieces[0]);
        assert(lines.len() >= 3) by {
            lemma_lines_of_len(pieces.drop_first());
        }
        assert(lines.skip(2) =~= spec_chunk_lines_of(pieces.drop_first()));
        lemma_decode_lines(pieces.drop_first());
        assert(spec_chunk_decode(lines).0 == pieces[0] + spec_chunk_decode(lines.skip(2)).0);
        assert(spec_chunk_decode(lines).1 == spec_chunk_decode(lines.skip(2)).1);
    }
}

proof fn lemma_lines_of_len(pieces: Seq<Seq<char>>)
    ensures
        spec_chunk_lines_of(pieces).len() >= 1,
    decreases pieces.len(),
{
    if pieces.len() > 0 {
        lemma_lines_of_len(pieces.drop_first());
    }
}

/// The chunk round trip: decoding the lines the encoder declares
/// reproduces the original text exactly, and consumes them all — the
/// decoder accepts the encoder's own declared lengths.
pub proof fn lemma_chunk_round_trip(s: Seq<char>)
    ensures
        spec_chunk_decode(spec_chunk_lines(s)).0 == s,
        spec_chunk_decode(spec_chunk_lines(s)).1 == Seq::<Seq<char>>::empty(),
{
    lemma_pieces_sizes(s);
    lemma_decode_lines(spec_chunk_pieces(s));
    lemma_pieces_concat(s);
}

pub open spec fn spec_join_crlf(lines: Seq<Seq<char>>) -> Seq<char>
    decreases lines.len(),
{
    if lines.len() == 0 {
        Seq::empty()
    } else {
        lines[0] + "\\r\\n"@ + spec_join_crlf(lines.drop_first())
    }
}

/// The encoder's output is exactly its declared lines, each followed by
/// the literal framing text: cutting the output back at that text
/// recovers the lines the decoder reads.
pub proof fn lemma_encode_is_lines(s: Seq<char>)
    ensures
        spec_chunk_encode(s) == spec_join_crlf(spec_chunk_lines(s)),
    decreases s.len(),
{
    reveal_strlit("8\\r\\n");
    reveal_strlit("0\\r\\n");
    reveal_strlit("\\r\\n");
    reveal_strlit("0");
    let sep = "\\r\\n"@;
    if s.len() == 0 {
        let lines = spec_chunk_lines(s);
        assert(lines == seq!["0"@]);
        assert(lines[0] == "0"@);
        assert(lines.drop_first() =~= Seq::<Seq<char>>::empty());
        assert(spec_join_crlf(lines.drop_first()) == Seq::<char>::empty());
        assert(spec_join_crlf(lines) == lines[0] + sep + spec_join_crlf(lines.drop_first()));
        assert("0\\r\\n"@ =~= "0"@ + sep + Seq::<char>::empty());
    } else if s.len() > 8 {
        lemma_encode_is_lines(s.skip(8));
        let pieces = spec_chunk_pieces(s);
        let lines = spec_chunk_lines(s);
        assert(pieces[0] == s.take(8));
        assert(pieces.drop_first() =~= spec_chunk_pieces(s.skip(8)));
        assert(lines == seq![spec_dec_digits(8), s.take(8)] + spec_chunk_lines(s.skip(8)));
        assert(lines[0] == spec_dec_digits(8));
        assert(lines[1] == s.take(8));
        assert(lines.drop_first() =~= seq![s.take(8)] + spec_chunk_lines(s.skip(8)));
        assert(lines.drop_first().drop_first() =~= spec_chunk_lines(s.skip(8)));
        assert(spec_join_crlf(lines) == lines[0] + sep + spec_join_crlf(lines.drop_first()));
        assert(spec_join_crlf(lines.drop_first()) == s.take(8) + sep + spec_join_crlf(
            spec_chunk_lines(s.skip(8)),
        ));
        assert(spec_dec_digits(8) =~= seq!['8']);
        assert("8\\r\\n"@ =~= seq!['8'] + sep);
        assert("8\\r\\n"@ + s.take(8) + sep + spec_chunk_encode(s.skip(8)) =~= spec_dec_digits(8)
            + sep + (s.take(8) + sep + spec_chunk_encode(s.skip(8))));
    } else {
        let n = s.len() as int;
        let pieces = spec_chunk_pieces(s);
        let lines = spec_chunk_lines(s);
        assert(pieces == seq![s]);
        assert(lines == seq![spec_dec_digits(n), s] + spec_chunk_lines_of(
            Seq::<Seq<char>>::empty(),
        )) by {
            assert(pieces.drop_first() =~= Seq::<Seq<char>>::empty());
        }
        assert(lines[0] == spec_dec_digits(n));
        assert(lines[1] == s);
        assert(lines[2] == "0"@);
        assert(lines.drop_first() =~= seq![s, "0"@]);
        assert(lines.drop_first().drop_first() =~= seq!["0"@]);
        assert(lines.drop_first().drop_first().drop_first() =~= Seq::<Seq<char>>::empty());
        assert(spec_join_crlf(lines) == lines[0] + sep + spec_join_crlf(lines.drop_first()));
        assert(spec_join_crlf(lines.drop_first()) == s + sep + spec_join_crlf(
            lines.drop_first().drop_first(),
        ));
        assert(spec_join_crlf(lines.drop_first().drop_first()) == "0"@ + sep + spec_join_crlf(
            Seq::<Seq<char>>::empty(),
        ));
        assert(spec_join_crlf(Seq::<Seq<char>>::empty()) == Seq::<char>::empty());
        assert("0\\r\\n"@ =~= "0"@ + sep);
        assert(spec_dec_digits(n) + sep + s + sep + "0\\r\\n"@ =~= lines[0] + sep + (s + sep + (
        "0"@ + sep + Seq::<char>::empty())));
    }
}

/// Decodes chunk lines from the body cursor, as [`spec_chunk_decode`]
/// describes: the cursor is left at the first unread line.
pub fn chunklines_to_string(lines: &mut BodyLines) -> (r: String)
    ensures
        r@ == spec_chunk_decode(old(lines)@).0,
        final(lines)@ == spec_chunk_decode(old(lines)@).1,
{
    let ghost orig = old(lines)@;
    let mut out = String::new();
    let mut done: bool = false;
    while !done
        invariant
            !done ==> spec_chunk_decode(orig).0 == out@ + spec_chunk_decode(lines@).0,
            !done ==> spec_chunk_decode(orig).1 == spec_chunk_decode(lines@).1,
            done ==> out@ == spec_chunk_decode(orig).0,
            done ==> lines@ == spec_chunk_decode(orig).1,
        decreases
                lines@.len(),
                (if done {
                    0int
                } else {
                    1int
                }),
    {
        let ghost pre = lines@;
        match lines.next() {
            None => {
                proof {
                    assert(pre.len() == 0);
                    assert(spec_chunk_decode(pre) == (Seq::<char>::empty(), Seq::<
                        Seq<char>,
                    >::empty()));
                    assert(out@ + Seq::<char>::empty() =~= out@);
                    assert(lines@ =~= Seq::<Seq<char>>::empty());
                }
                done = true;
            },
            Some(size_line) => {
                proof {
                    assert(pre.len() > 0);
                    assert(lines@ =~= pre.drop_first());
                }
                match parse_usize_hex(size_line.as_str()) {
                    None => {
                        proof {
                            assert(spec_chunk_decode(pre).0 == Seq::<char>::empty());
                            assert(spec_chunk_decode(pre).1 == pre.drop_first());
                            assert(out@ + Seq::<char>::empty() =~= out@);
                        }
                        done = true;
                    },
                    Some(v) => {
                        if v == 0 {
                            proof {
                                assert(out@ + Seq::<char>::empty() =~= out@);
                            }
                            done = true;
                        } else {
                            let ghost mid = lines@;
                            match lines.next() {
                                None => {
                                    proof {
                                        assert(mid.len() == 0);
                                        assert(pre.len() == 1);
                                        assert(out@ + Seq::<char>::empty() =~= out@);
                                        assert(lines@ =~= Seq::<Seq<char>>::empty());
                                    }
                                    done = true;
                                },
                                Some(content) => {
                                    proof {
                                        assert(pre.len() >= 2);
                                        assert(mid[0] == pre[1]);
                                        assert(lines@ =~= mid.drop_first());
                                        assert(lines@ =~= pre.skip(2));
                                    }
                                    if content.as_str().unicode_len() == v {
                                        let ghost o0 = out@;
                                        out.append(content.as_str());
                                        proof {
                                            let inner = spec_chunk_decode(pre.skip(2));
                                            assert(spec_chunk_decode(pre).0 == pre[1] + inner.0);
                                            assert(spec_chunk_decode(pre).1 == inner.1);
                                            assert(o0 + (pre[1] + inner.0) =~= out@ + inner.0);
                                        }
                                    } else {
                                        proof {
                                            assert(spec_chunk_decode(pre).0 == Seq::<
                                                char,
                                            >::empty());
                                            assert(spec_chunk_decode(pre).1 == pre.skip(2));
                                            assert(out@ + Seq::<char>::empty() =~= out@);
                                        }
                                        done = true;
                                    }
                                },
                            }
                        }
                    },
                }
            },
        }
    }
    out
}

} // verus!
