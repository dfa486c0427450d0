//! The fixed-layout record shared by the kernel probes and the userspace
//! reader, and its byte encoding.

use vstd::prelude::*;
use vstd::utf8::*;

verus! {

/// Capacity of the path buffer of a record, terminator included.
pub const MAX_PATH_LEN: usize = 256;

/// Capacity of the file-name buffer of a record, terminator included.
pub const MAX_FILENAME_LEN: usize = 64;

/// `event_type` of a record that reports a completed open.
pub const EVENT_OPEN: u32 = 0;

/// `event_type` of a record that reports a close.
pub const EVENT_CLOSE: u32 = 1;

/// Size in bytes of an encoded record: pid, tgid, path, filename, event type.
pub const RECORD_LEN: usize = 332;

/// Event data structure sent from the kernel probes to userspace.
#[derive(Clone, Copy, Debug)]
pub struct FileEvent {
    /// Process ID that triggered the event
    pub pid: u32,
    /// Thread group ID
    pub tgid: u32,
    /// File path (NUL-terminated); a close carries its descriptor in the first four bytes
    pub path: [u8; 256],
    /// File name only (NUL-terminated)
    pub filename: [u8; 64],
    /// Event type: 0 = open, 1 = close
    pub event_type: u32,
}

/// Why a record could not be turned into text or a typed event.
#[derive(Clone, Copy, Debug, PartialEq, Eq, Structural)]
pub enum RecordError {
    /// The bytes before the terminator are not UTF-8.
    InvalidUtf8,
    /// `event_type` is neither open nor close.
    UnknownEventType(u32),
}

/// `n` is where the text held in `b` ends: no NUL before it, and a NUL at it
/// unless it is the end of the buffer.
pub open spec fn is_text_end(b: Seq<u8>, n: int) -> bool {
    &&& 0 <= n <= b.len()
    &&& forall|j: int| 0 <= j < n ==> b[j] != 0
    &&& n < b.len() ==> b[n] == 0
}

/// Length of the NUL-terminated text held in `b` (all of `b` when it holds no NUL).
pub open spec fn text_len(b: Seq<u8>) -> int {
    choose|n: int| is_text_end(b, n)
}

/// The bytes of the NUL-terminated text held in `b`.
pub open spec fn text_of(b: Seq<u8>) -> Seq<u8> {
    b.take(text_len(b))
}

/// The end of the text is unique, so `text_len` names it.
pub proof fn lemma_text_end(b: Seq<u8>, n: int)
    requires
        is_text_end(b, n),
    ensures
        text_len(b) == n,
        text_of(b) == b.take(n),
{
    let m = text_len(b);
    assert(is_text_end(b, m));
    if m < n {
        assert(b[m] != 0);
    } else if n < m {
        assert(b[n] != 0);
    }
}

/// Four bytes, least significant first, of `x`.
pub open spec fn le32(x: u32) -> Seq<u8> {
    seq![
        (x & 0xff) as u8,
        ((x >> 8u32) & 0xff) as u8,
        ((x >> 16u32) & 0xff) as u8,
        ((x >> 24u32) & 0xff) as u8,
    ]
}

/// The integer whose bytes, least significant first, are `b[at..at + 4]`.
pub open spec fn read_le32(b: Seq<u8>, at: int) -> u32 {
    (b[at] as u32) | ((b[at + 1] as u32) << 8u32) | ((b[at + 2] as u32) << 16u32) | ((b[at
        + 3] as u32) << 24u32)
}

/// Reading back the four bytes of `x` gives `x`.
pub proof fn lemma_le32_round_trip(x: u32)
    ensures
        read_le32(le32(x), 0) == x,
{
    let b0 = (x & 0xff) as u8;
    let b1 = ((x >> 8u32) & 0xff) as u8;
    let b2 = ((x >> 16u32) & 0xff) as u8;
    let b3 = ((x >> 24u32) & 0xff) as u8;
    assert(((b0 as u32) | ((b1 as u32) << 8u32) | ((b2 as u32) << 16u32) | ((b3 as u32)
        << 24u32)) == x) by (bit_vector)
        requires
            b0 == (x & 0xff) as u8,
            b1 == ((x >> 8u32) & 0xff) as u8,
            b2 == ((x >> 16u32) & 0xff) as u8,
            b3 == ((x >> 24u32) & 0xff) as u8,
    ;
}

/// The record as plain values.
pub struct RecordView {
    pub pid: u32,
    pub tgid: u32,
    pub path: Seq<u8>,
    pub filename: Seq<u8>,
    pub event_type: u32,
}

impl View for FileEvent {
    type V = RecordView;

    open spec fn view(&self) -> RecordView {
        RecordView {
            pid: self.pid,
            tgid: self.tgid,
            path: self.path@,
            filename: self.filename@,
            event_type: self.event_type,
        }
    }
}

/// The encoding of a record: pid, tgid, path, filename and event type, in
/// that order, each integer least significant byte first (the byte order of
/// the hosts the probes run on).
pub open spec fn record_bytes(r: RecordView) -> Seq<u8> {
    le32(r.pid) + le32(r.tgid) + r.path + r.filename + le32(r.event_type)
}

/// The record that `b`, of `RECORD_LEN` bytes, encodes.
pub open spec fn record_of_bytes(b: Seq<u8>) -> RecordView {
    RecordView {
        pid: read_le32(b, 0),
        tgid: read_le32(b, 4),
        path: b.subrange(8, 264),
        filename: b.subrange(264, 328),
        event_type: read_le32(b, 328),
    }
}

/// Decoding the encoding of a record gives back its pid, tgid, event type,
/// path and file name.
pub proof fn lemma_record_round_trip(r: RecordView)
    requires
        r.path.len() == MAX_PATH_LEN,
        r.filename.len() == MAX_FILENAME_LEN,
    ensures
        record_bytes(r).len() == RECORD_LEN,
        record_of_bytes(record_bytes(r)) == r,
{
    let b = record_bytes(r);
    lemma_le32_round_trip(r.pid);
    lemma_le32_round_trip(r.tgid);
    lemma_le32_round_trip(r.event_type);
    assert(b.subrange(0, 4) =~= le32(r.pid));
    assert(b.subrange(4, 8) =~= le32(r.tgid));
    assert(b.subrange(8, 264) =~= r.path);
    assert(b.subrange(264, 328) =~= r.filename);
    assert(b.subrange(328, 332) =~= le32(r.event_type));
    assert(read_le32(b, 0) == read_le32(b.subrange(0, 4), 0));
    assert(read_le32(b, 4) == read_le32(b.subrange(4, 8), 0));
    assert(read_le32(b, 328) == read_le32(b.subrange(328, 332), 0));
}


/// `t` followed by zeros up to `n` bytes.
pub open spec fn padded(t: Seq<u8>, n: nat) -> Seq<u8> {
    t + Seq::new((n - t.len()) as nat, |j: int| 0u8)
}

/// A buffer that holds the bytes of a string without NUL, then zeros, holds
/// that string as its text: the text is UTF-8, and the only string whose
/// bytes it is, is the one stored.
pub proof fn lemma_text_round_trip(s: Seq<char>, n: nat, r: Seq<char>)
    requires
        forall|i: int| 0 <= i < encode_utf8(s).len() ==> encode_utf8(s)[i] != 0,
        encode_utf8(s).len() < n,
    ensures
        text_of(padded(encode_utf8(s), n)) == encode_utf8(s),
        valid_utf8(text_of(padded(encode_utf8(s), n))),
        encode_utf8(r) == text_of(padded(encode_utf8(s), n)) ==> r == s,
{
    let t = encode_utf8(s);
    let b = padded(t, n);
    assert(is_text_end(b, t.len() as int));
    lemma_text_end(b, t.len() as int);
    assert(b.take(t.len() as int) =~= t);
    encode_utf8_valid_utf8(s);
    if encode_utf8(r) == t {
        encode_utf8_decode_utf8(r);
        encode_utf8_decode_utf8(s);
    }
}

/// Relies on `String::from_utf8`: it succeeds exactly when the bytes are
/// UTF-8, and the string then holds those bytes.
#[verifier::external_body]
fn utf8_string(bytes: Vec<u8>) -> (r: Option<String>)
    ensures
        r is Some <==> valid_utf8(bytes@),
        r is Some ==> encode_utf8(r->Some_0@) == bytes@,
{
    String::from_utf8(bytes).ok()
}

/// The NUL-terminated text of `buf` as a string.
fn text_string(buf: &[u8]) -> (r: Result<String, RecordError>)
    ensures
        r is Ok <==> valid_utf8(text_of(buf@)),
        r is Ok ==> encode_utf8(r->Ok_0@) == text_of(buf@),
        r is Err ==> r->Err_0 == RecordError::InvalidUtf8,
{
    let mut out: Vec<u8> = Vec::new();
    let mut i: usize = 0;
    while i < buf.len() && buf[i] != 0
        invariant
            0 <= i <= buf@.len(),
            out@ == buf@.take(i as int),
            forall|j: int| 0 <= j < i ==> buf@[j] != 0,
        decreases buf@.len() - i,
    {
        out.push(buf[i]);
        i = i + 1;
        assert(out@ =~= buf@.take(i as int));
    }
    proof {
        lemma_text_end(buf@, i as int);
    }
    match utf8_string(out) {
        Some(s) => Ok(s),
        None => Err(RecordError::InvalidUtf8),
    }
}

impl FileEvent {
    /// The path as a string.
    pub fn path_str(&self) -> (r: Result<String, RecordError>)
        ensures
            r is Ok <==> valid_utf8(text_of(self.path@)),
            r is Ok ==> encode_utf8(r->Ok_0@) == text_of(self.path@),
            r is Err ==> r->Err_0 == RecordError::InvalidUtf8,
    {
        text_string(self.path.as_slice())
    }

    /// The file name as a string.
    pub fn filename_str(&self) -> (r: Result<String, RecordError>)
        ensures
            r is Ok <==> valid_utf8(text_of(self.filename@)),
            r is Ok ==> encode_utf8(r->Ok_0@) == text_of(self.filename@),
            r is Err ==> r->Err_0 == RecordError::InvalidUtf8,
    {
        text_string(self.filename.as_slice())
    }

    /// Whether this is an open event.
    pub fn is_open(&self) -> (r: bool)
        ensures
            r == (self.event_type == EVENT_OPEN),
    {
        self.event_type == EVENT_OPEN
    }

    /// Whether this is a close event.
    pub fn is_close(&self) -> (r: bool)
        ensures
            r == (self.event_type == EVENT_CLOSE),
    {
        self.event_type == EVENT_CLOSE
    }

    /// The descriptor that a close record carries in the first four bytes of its path.
    pub fn descriptor(&self) -> (r: i32)
        ensures
            r == read_le32(self.path@, 0) as i32,
    {
        let x: u32 = (self.path[0] as u32) | ((self.path[1] as u32) << 8u32) | ((
        self.path[2] as u32) << 16u32) | ((self.path[3] as u32) << 24u32);
        x as i32
    }
}

/// Appends the four bytes of `x`, least significant first.
fn push_le32(out: &mut Vec<u8>, x: u32)
    ensures
        final(out)@ == old(out)@ + le32(x),
{
    out.push((x & 0xff) as u8);
    out.push(((x >> 8u32) & 0xff) as u8);
    out.push(((x >> 16u32) & 0xff) as u8);
    out.push(((x >> 24u32) & 0xff) as u8);
    assert(final(out)@ =~= old(out)@ + le32(x));
}

/// Appends all of `buf`.
fn push_all(out: &mut Vec<u8>, buf: &[u8])
    ensures
        final(out)@ == old(out)@ + buf@,
{
    let mut i: usize = 0;
    while i < buf.len()
        invariant
            0 <= i <= buf@.len(),
            out@ == old(out)@ + buf@.take(i as int),
        decreases buf@.len() - i,
    {
        out.push(buf[i]);
        i = i + 1;
        assert(out@ =~= old(out)@ + buf@.take(i as int));
    }
    assert(buf@.take(i as int) =~= buf@);
}

impl FileEvent {
    /// The record's bytes, as they travel from the probes to userspace.
    pub fn encode(&self) -> (r: Vec<u8>)
        ensures
            r@ == record_bytes(self@),
            r@.len() == RECORD_LEN,
    {
        let mut out: Vec<u8> = Vec::new();
        push_le32(&mut out, self.pid);
        push_le32(&mut out, self.tgid);
        push_all(&mut out, self.path.as_slice());
        push_all(&mut out, self.filename.as_slice());
        push_le32(&mut out, self.event_type);
        out
    }

    /// The record that `bytes` encodes; `None` unless it is exactly
    /// `RECORD_LEN` bytes long.
    pub fn decode(bytes: &[u8]) -> (r: Option<FileEvent>)
        ensures
            r is Some <==> bytes@.len() == RECORD_LEN,
            r is Some ==> r->Some_0@ == record_of_bytes(bytes@),
    {
        if bytes.len() != RECORD_LEN {
            return None;
        }
        let pid: u32 = (bytes[0] as u32) | ((bytes[1] as u32) << 8u32) | ((bytes[2] as u32)
            << 16u32) | ((bytes[3] as u32) << 24u32);
        let tgid: u32 = (bytes[4] as u32) | ((bytes[5] as u32) << 8u32) | ((bytes[6] as u32)
            << 16u32) | ((bytes[7] as u32) << 24u32);
        let event_type: u32 = (bytes[328] as u32) | ((bytes[329] as u32) << 8u32) | ((
        bytes[330] as u32) << 16u32) | ((bytes[331] as u32) << 24u32);
        let mut path = [0u8; 256];
        let mut i: usize = 0;
        while i < MAX_PATH_LEN
            invariant
                0 <= i <= MAX_PATH_LEN,
                bytes@.len() == RECORD_LEN,
                forall|j: int| 0 <= j < i ==> path@[j] == bytes@[8 + j],
            decreases MAX_PATH_LEN - i,
        {
            path[i] = bytes[8 + i];
            i = i + 1;
        }
        let mut filename = [0u8; 64];
        let mut k: usize = 0;
        while k < MAX_FILENAME_LEN
            invariant
                0 <= k <= MAX_FILENAME_LEN,
                bytes@.len() == RECORD_LEN,
                forall|j: int| 0 <= j < k ==> filename@[j] == bytes@[264 + j],
            decreases MAX_FILENAME_LEN - k,
        {
            filename[k] = bytes[264 + k];
            k = k + 1;
        }
        assert(path@ =~= bytes@.subrange(8, 264));
        assert(filename@ =~= bytes@.subrange(264, 328));
        Some(FileEvent { pid, tgid, path, filename, event_type })
    }
}

} // verus!
