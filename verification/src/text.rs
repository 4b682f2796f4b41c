//! Byte-level grammar of the control messages: whitespace, quoted names,
//! the `{ "Name" : value }` envelope, decimal ports and hyphenated ids.

use vstd::prelude::*;

verus! {

/// The byte that ends a frame. It never occurs inside a payload.
pub const DELIMITER: u8 = 0;

pub const QUOTE: u8 = 0x22;

pub const HYPHEN: u8 = 0x2d;

pub const COLON: u8 = 0x3a;

pub const OPEN_BRACE: u8 = 0x7b;

pub const CLOSE_BRACE: u8 = 0x7d;

/// The bytes of a text whose characters are all ASCII.
pub open spec fn ascii(s: Seq<char>) -> Seq<u8> {
    Seq::new(s.len(), |i: int| s[i] as u8)
}

/// Insignificant whitespace: space, tab, line feed, carriage return.
pub open spec fn is_space(b: u8) -> bool {
    b == 0x20 || b == 0x09 || b == 0x0a || b == 0x0d
}

/// What a scan over the bytes is looking for.
#[derive(Clone, Copy, Debug, PartialEq, Eq, Structural)]
pub enum Until {
    /// The first byte that is not whitespace.
    Text,
    /// The next double quote.
    Quote,
    /// The end of a value token: whitespace or a closing brace.
    ValueEnd,
    /// The frame delimiter.
    Delimiter,
}

/// Whether a scan for `until` stops on byte `b`.
pub open spec fn halts(until: Until, b: u8) -> bool {
    match until {
        Until::Text => !is_space(b),
        Until::Quote => b == QUOTE,
        Until::ValueEnd => is_space(b) || b == CLOSE_BRACE,
        Until::Delimiter => b == DELIMITER,
    }
}

/// The first index at or after `from` whose byte stops the scan, or the
/// length of `s` if there is none.
pub open spec fn scan(s: Seq<u8>, from: int, until: Until) -> int
    decreases s.len() - from,
{
    if 0 <= from < s.len() && !halts(until, s[from]) {
        scan(s, from + 1, until)
    } else {
        from
    }
}

/// A scan ends at `end` exactly when nothing before `end` stops it and
/// `end` is the end of the bytes or stops it.
pub proof fn lemma_scan_stops(s: Seq<u8>, from: int, end: int, until: Until)
    requires
        0 <= from <= end <= s.len(),
        forall|k: int| from <= k < end ==> !halts(until, #[trigger] s[k]),
        end == s.len() || halts(until, s[end]),
    ensures
        scan(s, from, until) == end,
    decreases end - from,
{
    if from < end {
        lemma_scan_stops(s, from + 1, end, until);
    }
}

/// What a finished scan says of the bytes it passed over.
pub proof fn lemma_scan_bounds(s: Seq<u8>, from: int, until: Until)
    requires
        0 <= from <= s.len(),
    ensures
        from <= scan(s, from, until) <= s.len(),
        forall|k: int| from <= k < scan(s, from, until) ==> !halts(until, #[trigger] s[k]),
        scan(s, from, until) < s.len() ==> halts(until, s[scan(s, from, until)]),
    decreases s.len() - from,
{
    if from < s.len() && !halts(until, s[from]) {
        lemma_scan_bounds(s, from + 1, until);
    }
}

/// Whether a scan for `until` stops on byte `b`.
pub fn stops_on(until: Until, b: u8) -> (r: bool)
    ensures
        r == halts(until, b),
{
    match until {
        Until::Text => !(b == 0x20 || b == 0x09 || b == 0x0a || b == 0x0d),
        Until::Quote => b == QUOTE,
        Until::ValueEnd => b == 0x20 || b == 0x09 || b == 0x0a || b == 0x0d || b == CLOSE_BRACE,
        Until::Delimiter => b == DELIMITER,
    }
}

/// Walks from `from` to the first byte that stops the scan. From the end of
/// the bytes, or from behind it, there is nowhere to walk.
pub fn scan_bytes(bytes: &[u8], from: usize, until: Until) -> (end: usize)
    ensures
        end == scan(bytes@, from as int, until),
        from <= end,
        from <= bytes@.len() ==> end <= bytes@.len(),
{
    let mut at: usize = from;
    while at < bytes.len() && !stops_on(until, bytes[at])
        invariant
            from <= at,
            from <= bytes@.len() ==> at <= bytes@.len(),
            scan(bytes@, from as int, until) == scan(bytes@, at as int, until),
        decreases bytes@.len() - at,
    {
        at = at + 1;
    }
    at
}

/// Whether two byte strings are the same.
pub fn same_bytes(a: &[u8], b: &[u8]) -> (r: bool)
    ensures
        r == (a@ == b@),
{
    if a.len() != b.len() {
        return false;
    }
    let mut i: usize = 0;
    while i < a.len()
        invariant
            a@.len() == b@.len(),
            i <= a@.len(),
            forall|k: int| 0 <= k < i ==> a@[k] == b@[k],
        decreases a@.len() - i,
    {
        if a[i] != b[i] {
            return false;
        }
        i = i + 1;
    }
    assert(a@ =~= b@);
    true
}

/// The shape of a message text: one name, alone in quotes or, in braces,
/// followed by a colon and one value token.
pub struct Envelope {
    pub name: Seq<u8>,
    pub value: Option<Seq<u8>>,
}

/// The canonical text of an envelope: no whitespace anywhere.
pub open spec fn envelope_text(e: Envelope) -> Seq<u8> {
    match e.value {
        Some(value) => seq![OPEN_BRACE, QUOTE] + e.name + seq![QUOTE, COLON] + value
            + seq![CLOSE_BRACE],
        None => seq![QUOTE] + e.name + seq![QUOTE],
    }
}

/// Where the quoted string that opens at `at` closes, if `at` holds a quote
/// and another quote follows it.
pub open spec fn quoted_end(s: Seq<u8>, at: int) -> Option<int> {
    if 0 <= at < s.len() && s[at] == QUOTE && scan(s, at + 1, Until::Quote) < s.len() {
        Some(scan(s, at + 1, Until::Quote))
    } else {
        None
    }
}

/// Reads `"name"` or `{ "name" : value }`, with any whitespace around the
/// tokens. The name is what stands between the quotes, byte for byte; the
/// value is the run of bytes up to the next whitespace or closing brace.
pub open spec fn envelope(s: Seq<u8>) -> Option<Envelope> {
    let start = scan(s, 0, Until::Text);
    if start < s.len() && s[start] == OPEN_BRACE {
        let open = scan(s, start + 1, Until::Text);
        match quoted_end(s, open) {
            Some(close) => {
                let colon = scan(s, close + 1, Until::Text);
                let first = scan(s, colon + 1, Until::Text);
                let last = scan(s, first, Until::ValueEnd);
                let brace = scan(s, last, Until::Text);
                if colon < s.len() && s[colon] == COLON && brace < s.len() && s[brace]
                    == CLOSE_BRACE && scan(s, brace + 1, Until::Text) == s.len() {
                    Some(
                        Envelope {
                            name: s.subrange(open + 1, close),
                            value: Some(s.subrange(first, last)),
                        },
                    )
                } else {
                    None
                }
            },
            None => None,
        }
    } else {
        match quoted_end(s, start) {
            Some(close) => if scan(s, close + 1, Until::Text) == s.len() {
                Some(Envelope { name: s.subrange(start + 1, close), value: None })
            } else {
                None
            },
            None => None,
        }
    }
}

/// A name that can stand between quotes as it is.
pub open spec fn plain_name(name: Seq<u8>) -> bool {
    forall|k: int| 0 <= k < name.len() ==> #[trigger] name[k] != QUOTE
}

/// A value that is one token: no whitespace and no closing brace in it.
pub open spec fn plain_value(value: Seq<u8>) -> bool {
    forall|k: int| 0 <= k < value.len() ==> !halts(Until::ValueEnd, #[trigger] value[k])
}

/// An envelope whose canonical text reads back as itself.
pub open spec fn plain(e: Envelope) -> bool {
    &&& plain_name(e.name)
    &&& e.value matches Some(value) ==> plain_value(value)
}

/// Reading the canonical text of a plain envelope gives the envelope back.
pub proof fn lemma_envelope_round_trip(e: Envelope)
    requires
        plain(e),
    ensures
        envelope(envelope_text(e)) == Some(e),
{
    let s = envelope_text(e);
    let n = e.name.len() as int;
    match e.value {
        Some(value) => {
            let m = value.len() as int;
            assert(s.len() == n + m + 5);
            assert(s[0] == OPEN_BRACE && s[1] == QUOTE);
            assert(s[n + 2] == QUOTE && s[n + 3] == COLON && s[n + m + 4] == CLOSE_BRACE);
            assert forall|k: int| 2 <= k < n + 2 implies !halts(Until::Quote, #[trigger] s[k]) by {
                assert(s[k] == e.name[k - 2]);
            }
            assert forall|k: int| n + 4 <= k < n + m + 4 implies !halts(
                Until::ValueEnd,
                #[trigger] s[k],
            ) by {
                assert(s[k] == value[k - n - 4]);
            }
            lemma_scan_stops(s, 0, 0, Until::Text);
            lemma_scan_stops(s, 1, 1, Until::Text);
            lemma_scan_stops(s, 2, n + 2, Until::Quote);
            lemma_scan_stops(s, n + 3, n + 3, Until::Text);
            lemma_scan_stops(s, n + 4, n + 4, Until::Text);
            lemma_scan_stops(s, n + 4, n + m + 4, Until::ValueEnd);
            lemma_scan_stops(s, n + m + 4, n + m + 4, Until::Text);
            lemma_scan_stops(s, n + m + 5, n + m + 5, Until::Text);
            assert(s.subrange(2, n + 2) =~= e.name);
            assert(s.subrange(n + 4, n + m + 4) =~= value);
        },
        None => {
            assert(s.len() == n + 2);
            assert(s[0] == QUOTE && s[n + 1] == QUOTE);
            assert forall|k: int| 1 <= k < n + 1 implies !halts(Until::Quote, #[trigger] s[k]) by {
                assert(s[k] == e.name[k - 1]);
            }
            lemma_scan_stops(s, 0, 0, Until::Text);
            lemma_scan_stops(s, 1, n + 1, Until::Quote);
            lemma_scan_stops(s, n + 2, n + 2, Until::Text);
            assert(s.subrange(1, n + 1) =~= e.name);
        },
    }
}

/// The canonical text holds the delimiter only where the name or the value
/// holds it.
pub proof fn lemma_envelope_text_bytes(e: Envelope, b: u8)
    requires
        envelope_text(e).contains(b),
    ensures
        b == QUOTE || b == COLON || b == OPEN_BRACE || b == CLOSE_BRACE || e.name.contains(b) || (
        e.value matches Some(value) && value.contains(b)),
{
    let s = envelope_text(e);
    let k = choose|k: int| 0 <= k < s.len() && s[k] == b;
    let n = e.name.len() as int;
    match e.value {
        Some(value) => {
            if 2 <= k < n + 2 {
                assert(e.name[k - 2] == b);
            } else if n + 4 <= k < n + value.len() + 4 {
                assert(value[k - n - 4] == b);
            }
        },
        None => {
            if 1 <= k < n + 1 {
                assert(e.name[k - 1] == b);
            }
        },
    }
}

/// Every byte of a text that reads as an envelope is whitespace, one of the
/// four marks, or a byte of the name or of the value.
pub proof fn lemma_envelope_covers(s: Seq<u8>, k: int)
    requires
        envelope(s) is Some,
        0 <= k < s.len(),
    ensures
        ({
            let e = envelope(s).unwrap();
            ||| is_space(s[k])
            ||| s[k] == QUOTE || s[k] == COLON || s[k] == OPEN_BRACE || s[k] == CLOSE_BRACE
            ||| e.name.contains(s[k])
            ||| e.value matches Some(value) && value.contains(s[k])
        }),
{
    let e = envelope(s).unwrap();
    let start = scan(s, 0, Until::Text);
    lemma_scan_bounds(s, 0, Until::Text);
    if start < s.len() && s[start] == OPEN_BRACE {
        let open = scan(s, start + 1, Until::Text);
        lemma_scan_bounds(s, start + 1, Until::Text);
        let close = scan(s, open + 1, Until::Quote);
        lemma_scan_bounds(s, open + 1, Until::Quote);
        let colon = scan(s, close + 1, Until::Text);
        lemma_scan_bounds(s, close + 1, Until::Text);
        let first = scan(s, colon + 1, Until::Text);
        lemma_scan_bounds(s, colon + 1, Until::Text);
        let last = scan(s, first, Until::ValueEnd);
        lemma_scan_bounds(s, first, Until::ValueEnd);
        let brace = scan(s, last, Until::Text);
        lemma_scan_bounds(s, last, Until::Text);
        lemma_scan_bounds(s, brace + 1, Until::Text);
        if open < k < close {
            assert(e.name[k - open - 1] == s[k]);
        } else if first <= k < last {
            assert(e.value.unwrap()[k - first] == s[k]);
        }
    } else {
        let close = scan(s, start + 1, Until::Quote);
        lemma_scan_bounds(s, start + 1, Until::Quote);
        lemma_scan_bounds(s, close + 1, Until::Text);
        if start < k < close {
            assert(e.name[k - start - 1] == s[k]);
        }
    }
}

/// The two fields of an envelope, as parts of the bytes they were read from.
pub struct Fields<'a> {
    pub name: &'a [u8],
    pub value: Option<&'a [u8]>,
}

impl<'a> View for Fields<'a> {
    type V = Envelope;

    open spec fn view(&self) -> Envelope {
        Envelope {
            name: self.name@,
            value: match self.value {
                Some(value) => Some(value@),
                None => None,
            },
        }
    }
}

/// Reads the envelope of a message text.
pub fn read_envelope<'a>(bytes: &'a [u8]) -> (r: Option<Fields<'a>>)
    ensures
        match r {
            Some(fields) => envelope(bytes@) == Some(fields@),
            None => envelope(bytes@) is None,
        },
{
    let len: usize = bytes.len();
    let start: usize = scan_bytes(bytes, 0, Until::Text);
    let braced: bool = start < len && bytes[start] == OPEN_BRACE;
    let open: usize = if braced {
        scan_bytes(bytes, start + 1, Until::Text)
    } else {
        start
    };
    if open >= len || bytes[open] != QUOTE {
        return None;
    }
    let close: usize = scan_bytes(bytes, open + 1, Until::Quote);
    if close >= len {
        return None;
    }
    let name: &[u8] = &bytes[open + 1..close];
    if !braced {
        let end: usize = scan_bytes(bytes, close + 1, Until::Text);
        return if end == len {
            Some(Fields { name, value: None })
        } else {
            None
        };
    }
    let colon: usize = scan_bytes(bytes, close + 1, Until::Text);
    if colon >= len || bytes[colon] != COLON {
        return None;
    }
    let first: usize = scan_bytes(bytes, colon + 1, Until::Text);
    let last: usize = scan_bytes(bytes, first, Until::ValueEnd);
    let brace: usize = scan_bytes(bytes, last, Until::Text);
    if brace >= len || bytes[brace] != CLOSE_BRACE {
        return None;
    }
    let end: usize = scan_bytes(bytes, brace + 1, Until::Text);
    if end == len {
        Some(Fields { name, value: Some(&bytes[first..last]) })
    } else {
        None
    }
}

/// Appends `bytes` to `out`.
pub fn append_bytes(out: &mut Vec<u8>, bytes: &[u8])
    ensures
        final(out)@ == old(out)@ + bytes@,
{
    let mut i: usize = 0;
    while i < bytes.len()
        invariant
            i <= bytes@.len(),
            out@ == old(out)@ + bytes@.subrange(0, i as int),
        decreases bytes@.len() - i,
    {
        out.push(bytes[i]);
        i = i + 1;
        assert(out@ =~= old(out)@ + bytes@.subrange(0, i as int));
    }
    assert(bytes@.subrange(0, i as int) =~= bytes@);
}

/// Writes the canonical text of an envelope.
pub fn write_envelope(name: &[u8], value: Option<&[u8]>) -> (out: Vec<u8>)
    ensures
        out@ == envelope_text((Fields { name, value })@),
{
    let mut out: Vec<u8> = Vec::new();
    match value {
        Some(value) => {
            out.push(OPEN_BRACE);
            out.push(QUOTE);
            append_bytes(&mut out, name);
            out.push(QUOTE);
            out.push(COLON);
            append_bytes(&mut out, value);
            out.push(CLOSE_BRACE);
            assert(out@ =~= seq![OPEN_BRACE, QUOTE] + name@ + seq![QUOTE, COLON] + value@
                + seq![CLOSE_BRACE]);
        },
        None => {
            out.push(QUOTE);
            append_bytes(&mut out, name);
            out.push(QUOTE);
            assert(out@ =~= seq![QUOTE] + name@ + seq![QUOTE]);
        },
    }
    out
}

} // verus!
