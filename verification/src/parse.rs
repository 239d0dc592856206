use vstd::prelude::*;

use crate::color::RgbColor;
use crate::color::hex_byte;
use crate::color::hex_render;

verus! {

/// A byte survives sanitizing when it is printable ASCII: inside the ASCII
/// range and not a control character.
pub open spec fn printable_ascii(b: u8) -> bool {
    0x20 <= b <= 0x7e
}

/// Sanitizing keeps exactly the printable ASCII bytes, in order.
pub open spec fn sanitize_spec(s: Seq<u8>) -> Seq<u8>
    decreases s.len(),
{
    if s.len() == 0 {
        Seq::empty()
    } else if printable_ascii(s.last()) {
        sanitize_spec(s.drop_last()).push(s.last())
    } else {
        sanitize_spec(s.drop_last())
    }
}

/// Every byte that survives sanitizing is printable ASCII.
proof fn lemma_sanitize_printable(s: Seq<u8>)
    ensures
        forall|i: int|
            0 <= i < sanitize_spec(s).len() ==> printable_ascii(#[trigger] sanitize_spec(s)[i]),
    decreases s.len(),
{
    if s.len() > 0 {
        lemma_sanitize_printable(s.drop_last());
        let prev = sanitize_spec(s.drop_last());
        assert forall|i: int|
            0 <= i < sanitize_spec(s).len() implies printable_ascii(
            #[trigger] sanitize_spec(s)[i],
        ) by {
            if printable_ascii(s.last()) {
                if i < prev.len() {
                    assert(sanitize_spec(s)[i] == prev[i]);
                } else {
                    assert(sanitize_spec(s)[i] == s.last());
                }
            } else {
                assert(sanitize_spec(s)[i] == prev[i]);
            }
        }
    }
}

/// Drops every byte of a raw terminal reply that is outside the ASCII range
/// or an ASCII control character, keeping the rest in order.
pub fn sanitize(buf: &[u8]) -> (out: Vec<u8>)
    ensures
        out@ == sanitize_spec(buf@),
{
    let mut out: Vec<u8> = Vec::new();
    let mut i: usize = 0;
    while i < buf.len()
        invariant
            i <= buf.len(),
            out@ == sanitize_spec(buf@.take(i as int)),
        decreases buf.len() - i,
    {
        let b = buf[i];
        proof {
            assert(buf@.take(i + 1).drop_last() =~= buf@.take(i as int));
            assert(buf@.take(i + 1).last() == b);
        }
        if 0x20 <= b && b <= 0x7e {
            out.push(b);
        }
        i = i + 1;
    }
    proof {
        assert(buf@.take(buf@.len() as int) =~= buf@);
    }
    out
}

/// Whether a byte is an ASCII hexadecimal digit, either case.
pub open spec fn is_hex_digit(b: u8) -> bool {
    (0x30 <= b <= 0x39) || (0x41 <= b <= 0x46) || (0x61 <= b <= 0x66)
}

/// The value of one hexadecimal digit byte.
pub open spec fn hex_digit_val(b: u8) -> nat {
    if 0x30 <= b <= 0x39 {
        (b - 0x30) as nat
    } else if 0x41 <= b <= 0x46 {
        (b - 0x41 + 10) as nat
    } else if 0x61 <= b <= 0x66 {
        (b - 0x61 + 10) as nat
    } else {
        0
    }
}

/// The value of a sequence of hexadecimal digit bytes, most significant
/// digit first.
pub open spec fn hex_value(s: Seq<u8>) -> nat
    decreases s.len(),
{
    if s.len() == 0 {
        0
    } else {
        hex_value(s.drop_last()) * 16 + hex_digit_val(s.last())
    }
}

pub open spec fn all_hex_digits(s: Seq<u8>) -> bool {
    forall|i: int| 0 <= i < s.len() ==> is_hex_digit(s[i])
}

/// A reply segment yields a channel value exactly when it is nonempty,
/// consists wholly of hexadecimal digits, and its value fits in 16 bits.
pub open spec fn valid_segment(s: Seq<u8>) -> bool {
    s.len() > 0 && all_hex_digits(s) && hex_value(s) <= 0xffff
}

/// The value of a prefix of a digit string never exceeds the value of the
/// whole: appending digits can only grow the value.
proof fn lemma_hex_value_prefix(s: Seq<u8>, i: int)
    requires
        0 <= i <= s.len(),
    ensures
        hex_value(s.take(i)) <= hex_value(s),
    decreases s.len() - i,
{
    if i < s.len() {
        assert(s.take(i + 1).drop_last() =~= s.take(i));
        assert(hex_value(s.take(i + 1)) == hex_value(s.take(i)) * 16 + hex_digit_val(
            s.take(i + 1).last(),
        ));
        lemma_hex_value_prefix(s, i + 1);
    } else {
        assert(s.take(i) =~= s);
    }
}

/// Parses the bytes of `seg` between `from` and `to` as a base-16 integer
/// of at most 16 bits; yields `None` exactly on the segments that
/// [`valid_segment`] rejects.
pub fn parse_hex_u16(seg: &[u8], from: usize, to: usize) -> (r: Option<u16>)
    requires
        from <= to <= seg@.len(),
    ensures
        r is Some <==> valid_segment(seg@.subrange(from as int, to as int)),
        r matches Some(v) ==> v as nat == hex_value(seg@.subrange(from as int, to as int)),
{
    let ghost s = seg@.subrange(from as int, to as int);
    if from == to {
        return None;
    }
    let mut acc: u32 = 0;
    let mut i: usize = from;
    while i < to
        invariant
            from <= i <= to <= seg@.len(),
            s == seg@.subrange(from as int, to as int),
            all_hex_digits(s.take(i - from)),
            acc as nat == hex_value(s.take(i - from)),
            acc <= 0xffff,
        decreases to - i,
    {
        let b = seg[i];
        assert(s[i - from] == b);
        let d: u32 = if 0x30 <= b && b <= 0x39 {
            (b - 0x30) as u32
        } else if 0x41 <= b && b <= 0x46 {
            (b - 0x41) as u32 + 10
        } else if 0x61 <= b && b <= 0x66 {
            (b - 0x61) as u32 + 10
        } else {
            assert(!is_hex_digit(s[i - from]));
            return None;
        };
        proof {
            assert(s.take(i - from + 1).drop_last() =~= s.take(i - from));
            assert(s.take(i - from + 1).last() == b);
        }
        let next: u32 = acc * 16 + d;
        if next > 0xffff {
            proof {
                lemma_hex_value_prefix(s, i - from + 1);
            }
            return None;
        }
        acc = next;
        i = i + 1;
    }
    proof {
        assert(s.take(to - from) =~= s);
    }
    Some(acc as u16)
}

/// Splitting on a separator byte, as `str::split` does it: the sequence of
/// maximal (possibly empty) runs between separators. An input without the
/// separator, the empty input included, is one single segment.
pub open spec fn split_on(s: Seq<u8>, sep: u8) -> Seq<Seq<u8>>
    decreases s.len(),
{
    if s.len() == 0 {
        seq![Seq::<u8>::empty()]
    } else if s[0] == sep {
        seq![Seq::<u8>::empty()] + split_on(s.drop_first(), sep)
    } else {
        let rest = split_on(s.drop_first(), sep);
        seq![seq![s[0]] + rest[0]] + rest.drop_first()
    }
}

proof fn lemma_split_len_pos(s: Seq<u8>, sep: u8)
    ensures
        split_on(s, sep).len() >= 1,
    decreases s.len(),
{
    if s.len() != 0 {
        lemma_split_len_pos(s.drop_first(), sep);
    }
}

/// A sequence free of the separator splits into itself alone.
proof fn lemma_split_no_sep(s: Seq<u8>, sep: u8)
    requires
        forall|i: int| 0 <= i < s.len() ==> s[i] != sep,
    ensures
        split_on(s, sep) == seq![s],
    decreases s.len(),
{
    broadcast use vstd::seq_lib::group_seq_properties;

    if s.len() != 0 {
        lemma_split_no_sep(s.drop_first(), sep);
        let rest = split_on(s.drop_first(), sep);
        assert(seq![s[0]] + rest[0] =~= s);
        assert(seq![seq![s[0]] + rest[0]] + rest.drop_first() =~~= seq![s]);
    }
}

/// Splitting distributes over a separator: the segments of `a ++ sep ++ b`
/// are the segments of `a` followed by the segments of `b`.
proof fn lemma_split_append(a: Seq<u8>, b: Seq<u8>, sep: u8)
    ensures
        split_on(a + seq![sep] + b, sep) == split_on(a, sep) + split_on(b, sep),
    decreases a.len(),
{
    let s = a + seq![sep] + b;
    if a.len() == 0 {
        assert(s[0] == sep);
        assert(s.drop_first() =~= b);
        assert(split_on(a, sep) == seq![Seq::<u8>::empty()]);
    } else {
        assert(s[0] == a[0]);
        assert(s.drop_first() =~= a.drop_first() + seq![sep] + b);
        lemma_split_append(a.drop_first(), b, sep);
        let rest = split_on(s.drop_first(), sep);
        let ra = split_on(a.drop_first(), sep);
        lemma_split_len_pos(a.drop_first(), sep);
        assert(rest == ra + split_on(b, sep));
        assert(rest[0] == ra[0]);
        assert(rest.drop_first() =~= ra.drop_first() + split_on(b, sep));
        if a[0] == sep {
            assert(split_on(a, sep) == seq![Seq::<u8>::empty()] + ra);
            assert(seq![Seq::<u8>::empty()] + rest =~~= split_on(a, sep) + split_on(b, sep));
        } else {
            assert(split_on(a, sep) == seq![seq![a[0]] + ra[0]] + ra.drop_first());
            assert(seq![seq![s[0]] + rest[0]] + rest.drop_first() =~~= split_on(a, sep) + split_on(
                b,
                sep,
            ));
        }
    }
}

/// The channel values carried by a sequence of reply segments: the
/// segments that do not parse are dropped, the rest parse to their values,
/// in order.
pub open spec fn channels_of_segments(parts: Seq<Seq<u8>>) -> Seq<u16>
    decreases parts.len(),
{
    if parts.len() == 0 {
        Seq::empty()
    } else if valid_segment(parts.first()) {
        seq![(hex_value(parts.first()) as u16)] + channels_of_segments(parts.drop_first())
    } else {
        channels_of_segments(parts.drop_first())
    }
}

/// The channel values of the reply text after its prefix: split on `/`,
/// drop what does not parse, parse the rest.
pub open spec fn channel_values(s: Seq<u8>) -> Seq<u16> {
    channels_of_segments(split_on(s, 0x2f))
}

proof fn lemma_channels_add(x: Seq<Seq<u8>>, y: Seq<Seq<u8>>)
    ensures
        channels_of_segments(x + y) == channels_of_segments(x) + channels_of_segments(y),
    decreases x.len(),
{
    if x.len() == 0 {
        assert(x + y =~= y);
        assert(Seq::<u16>::empty() + channels_of_segments(y) =~= channels_of_segments(y));
    } else {
        assert((x + y).first() == x.first());
        assert((x + y).drop_first() =~= x.drop_first() + y);
        lemma_channels_add(x.drop_first(), y);
        if valid_segment(x.first()) {
            assert(seq![(hex_value(x.first()) as u16)] + (channels_of_segments(x.drop_first())
                + channels_of_segments(y)) =~= (seq![(hex_value(x.first()) as u16)]
                + channels_of_segments(x.drop_first())) + channels_of_segments(y));
        }
    }
}

proof fn lemma_channels_singleton(t: Seq<u8>)
    ensures
        channels_of_segments(seq![t]) == if valid_segment(t) {
            seq![(hex_value(t) as u16)]
        } else {
            Seq::<u16>::empty()
        },
{
    assert(seq![t].first() == t);
    assert(seq![t].drop_first() =~= Seq::<Seq<u8>>::empty());
    assert(channels_of_segments(Seq::<Seq<u8>>::empty()) == Seq::<u16>::empty());
    if valid_segment(t) {
        assert(seq![(hex_value(t) as u16)] + Seq::<u16>::empty() =~= seq![
            (hex_value(t) as u16),
        ]);
    }
}

/// One splitting step of the channel scan: at a separator, the channels of
/// the tail from `start` are the channels of the run before the separator
/// followed by the channels of the tail after it.
proof fn lemma_channels_step(s: Seq<u8>, start: int, i: int)
    requires
        0 <= start <= i < s.len(),
        s[i] == 0x2f,
        forall|j: int| start <= j < i ==> s[j] != 0x2f,
    ensures
        channels_of_segments(split_on(s.skip(start), 0x2f)) == channels_of_segments(
            seq![s.subrange(start, i)],
        ) + channels_of_segments(split_on(s.skip(i + 1), 0x2f)),
{
    let cur = s.subrange(start, i);
    assert(s.skip(start) =~= cur + seq![0x2fu8] + s.skip(i + 1));
    lemma_split_append(cur, s.skip(i + 1), 0x2f);
    lemma_split_no_sep(cur, 0x2f);
    lemma_channels_add(seq![cur], split_on(s.skip(i + 1), 0x2f));
}

/// Splits the bytes of `s` from `from` onward on `/` and parses each
/// segment as a base-16 channel value, dropping the segments that do not
/// parse and keeping the order of the rest.
pub fn parse_channels(s: &[u8], from: usize) -> (vals: Vec<u16>)
    requires
        from <= s@.len(),
    ensures
        vals@ == channel_values(s@.skip(from as int)),
{
    let ghost whole = s@.skip(from as int);
    let mut vals: Vec<u16> = Vec::new();
    let mut start: usize = from;
    let mut i: usize = from;
    while i < s.len()
        invariant
            from <= start <= i <= s@.len(),
            forall|j: int| start <= j < i ==> s@[j] != 0x2f,
            channel_values(whole) == vals@ + channels_of_segments(
                split_on(s@.skip(start as int), 0x2f),
            ),
            whole == s@.skip(from as int),
        decreases s@.len() - i,
    {
        if s[i] == 0x2f {
            let ghost cur = s@.subrange(start as int, i as int);
            let ghost rest = channels_of_segments(split_on(s@.skip(i + 1), 0x2f));
            let ghost pre = vals@;
            let v = parse_hex_u16(s, start, i);
            proof {
                lemma_channels_step(s@, start as int, i as int);
                lemma_channels_singleton(cur);
            }
            if let Some(v) = v {
                vals.push(v);
                proof {
                    assert(pre.push(v) + rest =~= pre + (seq![v] + rest));
                }
            } else {
                proof {
                    assert(pre + (Seq::<u16>::empty() + rest) =~= pre + rest);
                }
            }
            start = i + 1;
        }
        i = i + 1;
    }
    let ghost cur = s@.subrange(start as int, s@.len() as int);
    let v = parse_hex_u16(s, start, s.len());
    proof {
        assert(s@.skip(start as int) =~= cur);
        lemma_split_no_sep(cur, 0x2f);
        lemma_channels_singleton(cur);
    }
    if let Some(v) = v {
        vals.push(v);
    }
    proof {
        assert(vals@ =~= channel_values(whole));
    }
    vals
}

/// The required prefix of a sanitized reply: the text `]11;rgb:`.
pub open spec fn response_prefix() -> Seq<u8> {
    seq![0x5du8, 0x31, 0x31, 0x3b, 0x72, 0x67, 0x62, 0x3a]
}

/// Whether a sanitized reply begins with `]11;rgb:`.
pub open spec fn has_response_prefix(t: Seq<u8>) -> bool {
    t.len() >= 8 && t.take(8) == response_prefix()
}

/// The characters of a sequence of ASCII bytes.
pub open spec fn ascii_chars(t: Seq<u8>) -> Seq<char> {
    t.map_values(|b: u8| b as char)
}

/// Why a terminal reply yielded no color.
#[derive(Debug)]
pub enum DataError {
    /// The cleaned reply text does not begin with `]11;rgb:`; the usual
    /// outcome on a terminal that does not answer the query at all. Carries
    /// the cleaned text, which may be empty.
    UnexpectedResponse { received: String },
    /// The reply carries fewer than three parseable channel values.
    NotEnoughValues,
}

/// The message of an error, as a caller reports it.
pub open spec fn error_message(e: DataError) -> Seq<char> {
    match e {
        DataError::UnexpectedResponse { received } => "terminal result does not match (got: \""@
            + received@ + "\")"@,
        DataError::NotEnoughValues => "not enough values for r, g, b"@,
    }
}

impl DataError {
    /// Renders the error as a message; for an unexpected reply the message
    /// quotes the received text verbatim.
    pub fn message(&self) -> (m: String)
        ensures
            m@ == error_message(*self),
    {
        match self {
            DataError::UnexpectedResponse { received } => {
                let mut m = String::from_str("terminal result does not match (got: \"");
                m.append(received.as_str());
                m.append("\")");
                m
            },
            DataError::NotEnoughValues => String::from_str("not enough values for r, g, b"),
        }
    }
}

/// Relies on `String::from_utf8`: bytes inside the ASCII range are valid
/// UTF-8 and decode to the characters with the same code points.
#[verifier::external_body]
fn ascii_to_string(bytes: &Vec<u8>) -> (s: String)
    requires
        forall|i: int| 0 <= i < bytes@.len() ==> bytes@[i] < 0x80,
    ensures
        s@ == ascii_chars(bytes@),
{
    String::from_utf8(bytes.clone()).unwrap_or_default()
}

/// Whether the cleaned reply text begins with the eight bytes `]11;rgb:`.
fn check_prefix(t: &Vec<u8>) -> (b: bool)
    ensures
        b == has_response_prefix(t@),
{
    if t.len() < 8 {
        return false;
    }
    proof {
        if t@.take(8) == response_prefix() {
            assert(forall|k: int| 0 <= k < 8 ==> t@.take(8)[k] == t@[k]);
            assert(t@[0] == 0x5d && t@[1] == 0x31 && t@[2] == 0x31 && t@[3] == 0x3b && t@[4]
                == 0x72 && t@[5] == 0x67 && t@[6] == 0x62 && t@[7] == 0x3a);
        }
    }
    let ok = t[0] == 0x5d && t[1] == 0x31 && t[2] == 0x31 && t[3] == 0x3b && t[4] == 0x72 && t[5]
        == 0x67 && t[6] == 0x62 && t[7] == 0x3a;
    proof {
        if ok {
            assert(t@.take(8) =~= response_prefix());
        }
    }
    ok
}

/// Drops the dangling backslash that an `ESC \` string terminator leaves
/// behind: stripping control bytes removes the `ESC`, so a reply closed by
/// the usual terminator ends in a lone backslash, which is no reply text.
pub open spec fn strip_terminator(t: Seq<u8>) -> Seq<u8> {
    if t.len() > 0 && t.last() == 0x5c {
        t.drop_last()
    } else {
        t
    }
}

/// The reply text a raw reply is judged by: its printable ASCII bytes,
/// less the remnant of a trailing string terminator.
pub open spec fn cleaned(raw: Seq<u8>) -> Seq<u8> {
    strip_terminator(sanitize_spec(raw))
}

/// Whether a raw reply parses to a color: its cleaned text begins with
/// `]11;rgb:` and at least three channel values parse from the rest.
pub open spec fn parse_ok(raw: Seq<u8>) -> bool {
    &&& has_response_prefix(cleaned(raw))
    &&& channel_values(cleaned(raw).skip(8)).len() >= 3
}

/// The color of a successfully parsed reply: the low byte of each of the
/// first three channel values, as red, green and blue. Masking keeps only
/// the low byte of a 16-bit-per-channel reply; it does not rescale.
pub open spec fn parsed_color(raw: Seq<u8>) -> RgbColor {
    let vs = channel_values(cleaned(raw).skip(8));
    RgbColor {
        red: (vs[0] & 0xff) as u8,
        green: (vs[1] & 0xff) as u8,
        blue: (vs[2] & 0xff) as u8,
    }
}

/// Parses a raw terminal reply to the background-color query into a color:
/// sanitizes the bytes, drops a trailing terminator remnant, demands the
/// `]11;rgb:` prefix, splits the rest on `/`, parses the segments as 16-bit
/// hexadecimal values, and keeps the low byte of the first three.
pub fn parse_response(buf: &[u8]) -> (r: Result<RgbColor, DataError>)
    ensures
        r is Ok <==> parse_ok(buf@),
        r matches Ok(c) ==> c == parsed_color(buf@),
        r matches Err(e) ==> match e {
            DataError::UnexpectedResponse { received } => {
                &&& !has_response_prefix(cleaned(buf@))
                &&& received@ == ascii_chars(cleaned(buf@))
            },
            DataError::NotEnoughValues => {
                &&& has_response_prefix(cleaned(buf@))
                &&& channel_values(cleaned(buf@).skip(8)).len() < 3
            },
        },
{
    let mut clean = sanitize(buf);
    if clean.len() > 0 && clean[clean.len() - 1] == 0x5c {
        clean.pop();
    }
    proof {
        assert(clean@ == cleaned(buf@));
    }
    if !check_prefix(&clean) {
        proof {
            lemma_sanitize_printable(buf@);
            assert forall|i: int| 0 <= i < clean@.len() implies clean@[i] < 0x80 by {
                assert(clean@[i] == sanitize_spec(buf@)[i]);
            }
        }
        let received = ascii_to_string(&clean);
        return Err(DataError::UnexpectedResponse { received });
    }
    let vals = parse_channels(clean.as_slice(), 8);
    if vals.len() < 3 {
        return Err(DataError::NotEnoughValues);
    }
    Ok(
        RgbColor {
            red: (vals[0] & 0xff) as u8,
            green: (vals[1] & 0xff) as u8,
            blue: (vals[2] & 0xff) as u8,
        },
    )
}

/// Sanitizing a sequence of printable ASCII bytes leaves it unchanged.
proof fn lemma_sanitize_id(s: Seq<u8>)
    requires
        forall|i: int| 0 <= i < s.len() ==> printable_ascii(s[i]),
    ensures
        sanitize_spec(s) == s,
    decreases s.len(),
{
    if s.len() > 0 {
        lemma_sanitize_id(s.drop_last());
        assert(sanitize_spec(s) =~= s);
    } else {
        assert(sanitize_spec(s) =~= s);
    }
}

/// The channel values of a body made of three valid segments joined by `/`
/// are exactly the three segment values.
proof fn lemma_three_segment_channels(s1: Seq<u8>, s2: Seq<u8>, s3: Seq<u8>)
    requires
        valid_segment(s1),
        valid_segment(s2),
        valid_segment(s3),
    ensures
        channel_values(s1 + seq![0x2fu8] + s2 + seq![0x2fu8] + s3) == seq![
            (hex_value(s1) as u16),
            (hex_value(s2) as u16),
            (hex_value(s3) as u16),
        ],
{
    let sep = 0x2fu8;
    let body = s1 + seq![sep] + s2 + seq![sep] + s3;
    let tail = s2 + seq![sep] + s3;
    assert(body =~= s1 + seq![sep] + tail);
    assert(forall|j: int| 0 <= j < s1.len() ==> s1[j] != sep);
    assert(forall|j: int| 0 <= j < s2.len() ==> s2[j] != sep);
    assert(forall|j: int| 0 <= j < s3.len() ==> s3[j] != sep);
    lemma_split_append(s1, tail, sep);
    lemma_split_append(s2, s3, sep);
    lemma_split_no_sep(s1, sep);
    lemma_split_no_sep(s2, sep);
    lemma_split_no_sep(s3, sep);
    assert(split_on(body, sep) == seq![s1] + (seq![s2] + seq![s3]));
    lemma_channels_add(seq![s1], seq![s2] + seq![s3]);
    lemma_channels_add(seq![s2], seq![s3]);
    lemma_channels_singleton(s1);
    lemma_channels_singleton(s2);
    lemma_channels_singleton(s3);
    assert(channel_values(body) =~= seq![
        (hex_value(s1) as u16),
        (hex_value(s2) as u16),
        (hex_value(s3) as u16),
    ]);
}

/// All printable ASCII on both sides means all printable ASCII joined.
proof fn lemma_printable_add(a: Seq<u8>, b: Seq<u8>)
    requires
        forall|i: int| 0 <= i < a.len() ==> printable_ascii(a[i]),
        forall|i: int| 0 <= i < b.len() ==> printable_ascii(b[i]),
    ensures
        forall|i: int| 0 <= i < (a + b).len() ==> printable_ascii((a + b)[i]),
{
    assert forall|i: int| 0 <= i < (a + b).len() implies printable_ascii((a + b)[i]) by {
        if i < a.len() {
            assert((a + b)[i] == a[i]);
        } else {
            assert((a + b)[i] == b[i - a.len()]);
        }
    }
}

/// A well-formed reply consists wholly of printable ASCII bytes: the
/// prefix text, hexadecimal digits and the `/` separators all are.
proof fn lemma_response_printable(s1: Seq<u8>, s2: Seq<u8>, s3: Seq<u8>)
    requires
        all_hex_digits(s1),
        all_hex_digits(s2),
        all_hex_digits(s3),
    ensures
        ({
            let raw = response_prefix() + (s1 + seq![0x2fu8] + s2 + seq![0x2fu8] + s3);
            forall|i: int| 0 <= i < raw.len() ==> printable_ascii(raw[i])
        }),
{
    let sep = 0x2fu8;
    lemma_printable_add(s1, seq![sep]);
    lemma_printable_add(s1 + seq![sep], s2);
    lemma_printable_add(s1 + seq![sep] + s2, seq![sep]);
    lemma_printable_add(s1 + seq![sep] + s2 + seq![sep], s3);
    lemma_printable_add(response_prefix(), s1 + seq![sep] + s2 + seq![sep] + s3);
}

/// Round trip at byte-truncation granularity: a well-formed three-channel
/// reply `]11;rgb:` `RRRR/GGGG/BBBB` parses to the color made of the low
/// byte of each channel value, and that color renders back as exactly the
/// `#rrggbb` string formed from those three low bytes.
pub proof fn lemma_parse_render_round_trip(s1: Seq<u8>, s2: Seq<u8>, s3: Seq<u8>)
    requires
        valid_segment(s1),
        valid_segment(s2),
        valid_segment(s3),
    ensures
        ({
            let raw = response_prefix() + (s1 + seq![0x2fu8] + s2 + seq![0x2fu8] + s3);
            let c = parsed_color(raw);
            &&& parse_ok(raw)
            &&& c.red == hex_value(s1) % 256
            &&& c.green == hex_value(s2) % 256
            &&& c.blue == hex_value(s3) % 256
            &&& hex_render(c) == seq!['#'] + hex_byte((hex_value(s1) % 256) as u8) + hex_byte(
                (hex_value(s2) % 256) as u8,
            ) + hex_byte((hex_value(s3) % 256) as u8)
        }),
{
    let sep = 0x2fu8;
    let body = s1 + seq![sep] + s2 + seq![sep] + s3;
    let raw = response_prefix() + body;
    assert(sanitize_spec(raw) == raw) by {
        lemma_response_printable(s1, s2, s3);
        lemma_sanitize_id(raw);
    }
    assert(raw.take(8) == response_prefix()) by {
        assert(raw.take(8) =~= response_prefix());
    }
    assert(raw.skip(8) == body) by {
        assert(raw.skip(8) =~= body);
    }
    let v1 = hex_value(s1) as u16;
    let v2 = hex_value(s2) as u16;
    let v3 = hex_value(s3) as u16;
    assert(channel_values(raw.skip(8)) == seq![v1, v2, v3]) by {
        lemma_three_segment_channels(s1, s2, s3);
    }
    assert(v1 & 0xff == v1 % 256) by (bit_vector);
    assert(v2 & 0xff == v2 % 256) by (bit_vector);
    assert(v3 & 0xff == v3 % 256) by (bit_vector);
}

/// The message of an unexpected-response error quotes the received text
/// verbatim: it appears contiguously, right after the fixed opening.
pub proof fn lemma_message_quotes_received(received: String)
    ensures
        ({
            let m = error_message(DataError::UnexpectedResponse { received });
            let n = "terminal result does not match (got: \""@.len();
            m.subrange(n as int, n as int + received@.len() as int) == received@
        }),
{
    let m = error_message(DataError::UnexpectedResponse { received });
    let n = "terminal result does not match (got: \""@.len();
    assert(m.subrange(n as int, n as int + received@.len() as int) =~= received@);
}

} // verus!
