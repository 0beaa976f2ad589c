use vstd::prelude::*;
use vstd::slice::{slice_subrange, slice_to_vec};

use crate::error::{ErrorKind, MissingMarker};

verus! {

/// `<?xpacket begin=`
pub open spec fn begin_marker() -> Seq<u8> {
    seq![60u8, 63, 120, 112, 97, 99, 107, 101, 116, 32, 98, 101, 103, 105, 110, 61]
}

/// `<?xpacket end=`
pub open spec fn end_marker() -> Seq<u8> {
    seq![60u8, 63, 120, 112, 97, 99, 107, 101, 116, 32, 101, 110, 100, 61]
}

/// `?>`
pub open spec fn closing_marker() -> Seq<u8> {
    seq![63u8, 62]
}

/// `needle` occurs in `data` starting at index `i`.
pub open spec fn occurs_at(data: Seq<u8>, needle: Seq<u8>, i: int) -> bool {
    0 <= i && i + needle.len() <= data.len() && data.subrange(i, i + needle.len()) == needle
}

/// `needle` occurs in `data` at some index.
pub open spec fn contains(data: Seq<u8>, needle: Seq<u8>) -> bool {
    exists|i: int| #[trigger] occurs_at(data, needle, i)
}

/// `i` is the first index at or after `from` where `needle` occurs.
pub open spec fn first_from(data: Seq<u8>, needle: Seq<u8>, from: int, i: int) -> bool {
    &&& from <= i
    &&& occurs_at(data, needle, i)
    &&& forall|j: int| from <= j < i ==> !#[trigger] occurs_at(data, needle, j)
}

/// `r` is the first occurrence of `needle` in `data`, or `None` when it never occurs.
pub open spec fn is_first_match(data: Seq<u8>, needle: Seq<u8>, r: Option<usize>) -> bool {
    match r {
        Some(i) => first_from(data, needle, 0, i as int),
        None => !contains(data, needle),
    }
}

/// The first index at or after `from` where `needle` occurs in `data`.
pub open spec fn find_from(data: Seq<u8>, needle: Seq<u8>, from: int) -> Option<int>
    decreases data.len() + 1 - from,
{
    if from < 0 || from + needle.len() > data.len() {
        None
    } else if occurs_at(data, needle, from) {
        Some(from)
    } else {
        find_from(data, needle, from + 1)
    }
}

/// The packet's span `[start, end)` in `data`: from the first begin marker to just
/// after the first closing marker that follows the first end marker after it.
pub open spec fn packet_span(data: Seq<u8>) -> Result<(int, int), MissingMarker> {
    match find_from(data, begin_marker(), 0) {
        None => Err(MissingMarker::Begin),
        Some(b) => match find_from(data, end_marker(), b) {
            None => Err(MissingMarker::EndStart),
            Some(e) => match find_from(data, closing_marker(), e) {
                None => Err(MissingMarker::Closing),
                Some(c) => Ok((b, c + closing_marker().len())),
            },
        },
    }
}

/// The located packet: its bytes and where they stand in the host buffer.
#[derive(Debug, Clone, PartialEq, Eq)]
pub struct ExtractedPacket {
    /// The packet, from the begin marker through the closing `?>`.
    pub bytes: Vec<u8>,
    /// Index of the packet's first byte in the host buffer.
    pub offset: usize,
    /// Number of bytes in the packet.
    pub length: usize,
}

impl ExtractedPacket {
    pub open spec fn wf(&self) -> bool {
        self.bytes@.len() == self.length
    }

    /// Exclusive end of the packet in the host buffer.
    pub open spec fn end_position(&self) -> int {
        self.offset + self.length
    }

    /// The packet decoded as UTF-8, each invalid sequence replaced by U+FFFD.
    pub fn text(&self) -> (r: String)
        ensures
            r@ == utf8_lossy(self.bytes@),
    {
        decode_lossy(self.bytes.as_slice())
    }
}

/// What `String::from_utf8_lossy` makes of a byte sequence.
pub uninterp spec fn utf8_lossy(b: Seq<u8>) -> Seq<char>;

/// Relies on String::from_utf8_lossy: decodes UTF-8, replacing each invalid sequence
/// by U+FFFD; the result depends on the bytes alone.
#[verifier::external_body]
fn decode_lossy(b: &[u8]) -> (r: String)
    ensures
        r@ == utf8_lossy(b@),
{
    String::from_utf8_lossy(b).into_owned()
}

/// Relies on memchr::memmem::find: the index of the first occurrence of `needle`
/// in `haystack`, or `None` when there is none.
#[verifier::external_body]
fn find(haystack: &[u8], needle: &[u8]) -> (r: Option<usize>)
    ensures
        is_first_match(haystack@, needle@, r),
{
    memchr::memmem::find(haystack, needle)
}

proof fn lemma_find_from(data: Seq<u8>, needle: Seq<u8>, from: int, r: Option<int>)
    requires
        0 <= from,
        match r {
            Some(i) => first_from(data, needle, from, i),
            None => forall|j: int| from <= j ==> !#[trigger] occurs_at(data, needle, j),
        },
    ensures
        find_from(data, needle, from) == r,
    decreases data.len() + 1 - from,
{
    if from + needle.len() > data.len() {
    } else if occurs_at(data, needle, from) {
    } else {
        lemma_find_from(data, needle, from + 1, r);
    }
}

proof fn lemma_occurs_shift(data: Seq<u8>, needle: Seq<u8>, s: int, j: int)
    requires
        0 <= s <= data.len(),
        0 <= j,
    ensures
        occurs_at(data.subrange(s, data.len() as int), needle, j) == occurs_at(
            data,
            needle,
            s + j,
        ),
{
    let sub = data.subrange(s, data.len() as int);
    if j + needle.len() <= sub.len() {
        assert(sub.subrange(j, j + needle.len()) =~= data.subrange(s + j, s + j + needle.len()));
    }
}

/// Searching the suffix from `s` with the first-match search gives `find_from`.
proof fn lemma_find_in_suffix(data: Seq<u8>, needle: Seq<u8>, s: int, r: Option<usize>)
    requires
        0 <= s <= data.len(),
        is_first_match(data.subrange(s, data.len() as int), needle, r),
    ensures
        find_from(data, needle, s) == match r {
            Some(k) => Some(s + k),
            None => None::<int>,
        },
{
    let sub = data.subrange(s, data.len() as int);
    match r {
        Some(k) => {
            assert forall|j: int| s <= j < s + k implies !#[trigger] occurs_at(data, needle, j) by {
                lemma_occurs_shift(data, needle, s, j - s);
                assert(!occurs_at(sub, needle, j - s));
            }
            lemma_occurs_shift(data, needle, s, k as int);
            lemma_find_from(data, needle, s, Some(s + k));
        },
        None => {
            assert forall|j: int| s <= j implies !#[trigger] occurs_at(data, needle, j) by {
                lemma_occurs_shift(data, needle, s, j - s);
                if occurs_at(sub, needle, j - s) {
                    assert(contains(sub, needle));
                }
            }
            lemma_find_from(data, needle, s, None);
        },
    }
}

/// What `find_from` returns is an occurrence at or after `from`; `None` means there
/// is none.
proof fn lemma_find_from_sound(data: Seq<u8>, needle: Seq<u8>, from: int)
    requires
        0 <= from,
    ensures
        match find_from(data, needle, from) {
            Some(k) => from <= k && occurs_at(data, needle, k),
            None => forall|j: int| from <= j ==> !#[trigger] occurs_at(data, needle, j),
        },
    decreases data.len() + 1 - from,
{
    if from + needle.len() > data.len() {
    } else if occurs_at(data, needle, from) {
    } else {
        lemma_find_from_sound(data, needle, from + 1);
    }
}

/// An occurrence at `i` bounds what `find_from` returns from any `from <= i`.
proof fn lemma_find_from_finds(data: Seq<u8>, needle: Seq<u8>, from: int, i: int)
    requires
        0 <= from <= i,
        occurs_at(data, needle, i),
    ensures
        find_from(data, needle, from) matches Some(k) && from <= k <= i && occurs_at(
            data,
            needle,
            k,
        ),
    decreases i - from,
{
    if occurs_at(data, needle, from) {
    } else {
        lemma_find_from_finds(data, needle, from + 1, i);
    }
}

/// A search that succeeds in `a` gives the same index in `a + b`.
proof fn lemma_find_from_prefix(a: Seq<u8>, b: Seq<u8>, needle: Seq<u8>, from: int)
    requires
        0 <= from,
        find_from(a, needle, from) is Some,
    ensures
        find_from(a + b, needle, from) == find_from(a, needle, from),
    decreases a.len() + 1 - from,
{
    if from + needle.len() > a.len() {
    } else {
        assert((a + b).subrange(from, from + needle.len()) =~= a.subrange(
            from,
            from + needle.len(),
        ));
        if !occurs_at(a, needle, from) {
            lemma_find_from_prefix(a, b, needle, from + 1);
        }
    }
}

/// Where the three markers occur in order (a begin marker, an end marker at or
/// after it, a closing marker at or after that), a packet is found: its first
/// bytes are the begin marker and its last bytes the closing marker.
pub proof fn lemma_markers_bound_packet(data: Seq<u8>, b: int, e: int, c: int)
    requires
        b <= e <= c,
        occurs_at(data, begin_marker(), b),
        occurs_at(data, end_marker(), e),
        occurs_at(data, closing_marker(), c),
    ensures
        packet_span(data) matches Ok((s, t)) && s + begin_marker().len() <= t
            && data.subrange(s, t).subrange(0, begin_marker().len() as int) == begin_marker()
            && data.subrange(s, t).subrange(t - s - closing_marker().len(), t - s)
            == closing_marker(),
{
    lemma_find_from_finds(data, begin_marker(), 0, b);
    let b0 = find_from(data, begin_marker(), 0)->Some_0;
    lemma_find_from_finds(data, end_marker(), b0, e);
    let e0 = find_from(data, end_marker(), b0)->Some_0;
    lemma_find_from_finds(data, closing_marker(), e0, c);
    let c0 = find_from(data, closing_marker(), e0)->Some_0;
    if e0 < b0 + 16 {
        let k = e0 - b0;
        assert(data.subrange(b0, b0 + 16)[k] == data[e0]);
        assert(data.subrange(e0, e0 + 14)[0] == data[e0]);
        assert(data.subrange(e0, e0 + 14)[10] == data[e0 + 10]);
        if k == 0 {
            assert(data.subrange(b0, b0 + 16)[10] == data[e0 + 10]);
        }
        assert(forall|j: int| 1 <= j < 16 ==> begin_marker()[j] != 60u8);
    }
    let t = c0 + 2;
    assert(data.subrange(b0, t).subrange(0, 16) =~= data.subrange(b0, b0 + 16));
    assert(data.subrange(b0, t).subrange(t - b0 - 2, t - b0) =~= data.subrange(c0, c0 + 2));
}

/// Where one of the three markers occurs nowhere, no packet is found.
pub proof fn lemma_missing_marker_fails(data: Seq<u8>)
    requires
        !contains(data, begin_marker()) || !contains(data, end_marker()) || !contains(
            data,
            closing_marker(),
        ),
    ensures
        packet_span(data) is Err,
{
    lemma_find_from_sound(data, begin_marker(), 0);
    if let Some(b) = find_from(data, begin_marker(), 0) {
        assert(contains(data, begin_marker()));
        lemma_find_from_sound(data, end_marker(), b);
        if let Some(e) = find_from(data, end_marker(), b) {
            assert(contains(data, end_marker()));
            lemma_find_from_sound(data, closing_marker(), e);
            if let Some(c) = find_from(data, closing_marker(), e) {
                assert(contains(data, closing_marker()));
            }
        }
    }
}

/// Whatever follows a buffer in which a packet is found does not change which
/// packet is found: of two packets, the earlier one is returned.
pub proof fn lemma_first_packet_wins(a: Seq<u8>, rest: Seq<u8>)
    requires
        packet_span(a) is Ok,
    ensures
        packet_span(a + rest) == packet_span(a),
{
    lemma_find_from_prefix(a, rest, begin_marker(), 0);
    let b = find_from(a, begin_marker(), 0)->Some_0;
    lemma_find_from_sound(a, begin_marker(), 0);
    lemma_find_from_prefix(a, rest, end_marker(), b);
    let e = find_from(a, end_marker(), b)->Some_0;
    lemma_find_from_sound(a, end_marker(), b);
    lemma_find_from_prefix(a, rest, closing_marker(), e);
}

fn begin_marker_bytes() -> (r: [u8; 16])
    ensures
        r@ == begin_marker(),
{
    let r: [u8; 16] = [60, 63, 120, 112, 97, 99, 107, 101, 116, 32, 98, 101, 103, 105, 110, 61];
    assert(r@ =~= begin_marker());
    r
}

fn end_marker_bytes() -> (r: [u8; 14])
    ensures
        r@ == end_marker(),
{
    let r: [u8; 14] = [60, 63, 120, 112, 97, 99, 107, 101, 116, 32, 101, 110, 100, 61];
    assert(r@ =~= end_marker());
    r
}

fn closing_marker_bytes() -> (r: [u8; 2])
    ensures
        r@ == closing_marker(),
{
    let r: [u8; 2] = [63, 62];
    assert(r@ =~= closing_marker());
    r
}

/// Finds the first XMP packet in `data`.
pub fn locate(data: &[u8]) -> (r: Result<ExtractedPacket, ErrorKind>)
    ensures
        match r {
            Ok(p) => {
                &&& p.wf()
                &&& packet_span(data@) == Ok::<(int, int), MissingMarker>(
                    (p.offset as int, p.end_position()),
                )
                &&& p.bytes@ == data@.subrange(p.offset as int, p.end_position())
            },
            Err(e) => {
                &&& packet_span(data@) is Err
                &&& e == ErrorKind::PacketNotFound(packet_span(data@)->Err_0)
            },
        },
{
    let bm = begin_marker_bytes();
    let em = end_marker_bytes();
    let cm = closing_marker_bytes();
    let found_begin = find(data, bm.as_slice());
    proof {
        assert(data@.subrange(0, data@.len() as int) =~= data@);
        lemma_find_in_suffix(data@, begin_marker(), 0, found_begin);
    }
    let begin = match found_begin {
        Some(i) => i,
        None => {
            return Err(ErrorKind::PacketNotFound(MissingMarker::Begin));
        },
    };
    let found_end = find(slice_subrange(data, begin, data.len()), em.as_slice());
    proof {
        lemma_find_in_suffix(data@, end_marker(), begin as int, found_end);
    }
    let end_start = match found_end {
        Some(k) => begin + k,
        None => {
            return Err(ErrorKind::PacketNotFound(MissingMarker::EndStart));
        },
    };
    let found_close = find(slice_subrange(data, end_start, data.len()), cm.as_slice());
    proof {
        lemma_find_in_suffix(data@, closing_marker(), end_start as int, found_close);
    }
    let end = match found_close {
        Some(k) => end_start + k + 2,
        None => {
            return Err(ErrorKind::PacketNotFound(MissingMarker::Closing));
        },
    };
    let bytes = slice_to_vec(slice_subrange(data, begin, end));
    Ok(ExtractedPacket { bytes, offset: begin, length: end - begin })
}

} // verus!
