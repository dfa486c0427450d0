//! The probe engine: what runs at the entry and return of an open and at the
//! entry of a close. It pairs each open's entry with its return through a
//! fixed-capacity table keyed by the calling thread, and emits finished
//! records onto a bounded channel that drops, and counts, what does not fit.

use std::collections::HashMap;
use vstd::prelude::*;
use crate::common::{
    is_text_end, le32, lemma_le32_round_trip, lemma_text_end, read_le32, text_len, text_of, FileEvent, RecordView, EVENT_CLOSE, EVENT_OPEN,
    MAX_FILENAME_LEN, MAX_PATH_LEN,
};

verus! {

broadcast use vstd::std_specs::hash::group_hash_axioms;

/// Index just after the last `/` of `s`, or 0 when `s` holds none.
pub open spec fn name_start(s: Seq<u8>) -> int
    decreases s.len(),
{
    if s.len() == 0 {
        0
    } else if s.last() == 0x2f {
        s.len() as int
    } else {
        name_start(s.drop_last())
    }
}

/// The name segment of the path held in `path`: what follows the last `/`
/// of its text (all of it when there is none), cut to fit a file-name buffer
/// with its terminator.
pub open spec fn file_name_bytes(path: Seq<u8>) -> Seq<u8> {
    let t = text_of(path);
    let n = t.skip(name_start(t));
    if n.len() < MAX_FILENAME_LEN {
        n
    } else {
        n.take(MAX_FILENAME_LEN - 1)
    }
}

proof fn lemma_name_start_bound(s: Seq<u8>)
    ensures
        0 <= name_start(s) <= s.len(),
    decreases s.len(),
{
    if s.len() > 0 && s.last() != 0x2f {
        lemma_name_start_bound(s.drop_last());
    }
}

/// Writes into `filename` the name segment of the path held in `path`,
/// followed by a terminator; the bytes after the terminator are left as they
/// were.
pub fn extract_filename(path: &[u8; 256], filename: &mut [u8; 64])
    ensures
        file_name_bytes(path@).len() < MAX_FILENAME_LEN,
        final(filename)@.take(file_name_bytes(path@).len() as int) == file_name_bytes(path@),
        final(filename)@[file_name_bytes(path@).len() as int] == 0,
        forall|j: int|
            file_name_bytes(path@).len() < j < MAX_FILENAME_LEN ==> final(filename)@[j]
                == old(filename)@[j],
        text_of(final(filename)@) == file_name_bytes(path@),
{
    let mut last_slash: usize = 0;
    let mut i: usize = 0;
    while i < MAX_PATH_LEN && path[i] != 0
        invariant
            0 <= last_slash <= i <= MAX_PATH_LEN,
            forall|j: int| 0 <= j < i ==> path@[j] != 0,
            last_slash == name_start(path@.take(i as int)),
        decreases MAX_PATH_LEN - i,
    {
        if path[i] == 0x2f {
            last_slash = i + 1;
        }
        i = i + 1;
        assert(path@.take(i as int).drop_last() =~= path@.take(i - 1));
    }
    proof {
        lemma_text_end(path@, i as int);
    }
    let ghost t = path@.take(i as int);
    let ghost name = file_name_bytes(path@);
    assert(t.skip(last_slash as int).len() == i - last_slash);
    let mut copied: usize = 0;
    while copied < MAX_FILENAME_LEN - 1 && last_slash + copied < MAX_PATH_LEN && path[last_slash
        + copied] != 0
        invariant
            0 <= last_slash <= i <= MAX_PATH_LEN,
            is_text_end(path@, i as int),
            0 <= copied <= MAX_FILENAME_LEN - 1,
            last_slash + copied <= i,
            forall|j: int| 0 <= j < copied ==> filename@[j] == path@[last_slash + j],
            forall|j: int| copied <= j < MAX_FILENAME_LEN ==> filename@[j] == old(filename)@[j],
        decreases MAX_FILENAME_LEN - copied,
    {
        filename[copied] = path[last_slash + copied];
        copied = copied + 1;
    }
    assert(copied as int == name.len());
    filename[copied] = 0;
    assert(filename@.take(copied as int) =~= name);
    proof {
        lemma_text_end(filename@, copied as int);
    }
}

/// The pid half of a composite key: its low 32 bits.
pub open spec fn pid_of(pid_tgid: u64) -> u32 {
    (pid_tgid & 0xffff_ffff) as u32
}

/// The tgid half of a composite key: its high 32 bits.
pub open spec fn tgid_of(pid_tgid: u64) -> u32 {
    (pid_tgid >> 32u64) as u32
}

/// The path buffer of an open record: the copied bytes, with the last one
/// forced to the terminator.
pub open spec fn open_path(copied: Seq<u8>) -> Seq<u8> {
    copied.update(MAX_PATH_LEN - 1, 0)
}

/// The record that an open's entry builds from the copied path.
pub open spec fn open_record(pid_tgid: u64, copied: Seq<u8>) -> RecordView {
    let name = file_name_bytes(open_path(copied));
    RecordView {
        pid: pid_of(pid_tgid),
        tgid: tgid_of(pid_tgid),
        path: open_path(copied),
        filename: name + Seq::new((MAX_FILENAME_LEN - name.len()) as nat, |j: int| 0u8),
        event_type: EVENT_OPEN,
    }
}

/// The record that a close's entry emits: no name, the descriptor in the
/// first four bytes of the path.
pub open spec fn close_record(pid_tgid: u64, fd: i32) -> RecordView {
    RecordView {
        pid: pid_of(pid_tgid),
        tgid: tgid_of(pid_tgid),
        path: le32(fd as u32) + Seq::new((MAX_PATH_LEN - 4) as nat, |j: int| 0u8),
        filename: Seq::new(MAX_FILENAME_LEN as nat, |j: int| 0u8),
        event_type: EVENT_CLOSE,
    }
}

/// The correlation table as plain values: the pending record of each key,
/// and how many keys it may hold.
pub struct TableView {
    pub entries: Map<u64, RecordView>,
    pub capacity: nat,
}

/// The record pending under `key`, if any.
pub open spec fn pending_get(t: TableView, key: u64) -> Option<RecordView> {
    if t.entries.contains_key(key) {
        Some(t.entries[key])
    } else {
        None
    }
}

/// Whether `key` may be stored: it is already held, or the table is not full.
pub open spec fn pending_has_room(t: TableView, key: u64) -> bool {
    t.entries.contains_key(key) || t.entries.len() < t.capacity
}

/// The table after storing `rec` under `key`, replacing what the key held;
/// unchanged when there is no room.
pub open spec fn pending_insert(t: TableView, key: u64, rec: RecordView) -> TableView {
    if pending_has_room(t, key) {
        TableView { entries: t.entries.insert(key, rec), ..t }
    } else {
        t
    }
}

/// The table after removing what is pending under `key`.
pub open spec fn pending_remove(t: TableView, key: u64) -> TableView {
    TableView { entries: t.entries.remove(key), ..t }
}

/// The correlation table of opens in flight, holding at most `capacity`
/// keys. Storing under a held key overwrites its entry; storing a new key
/// into a full table fails, and the new entry is dropped.
pub struct PendingTable {
    entries: HashMap<u64, FileEvent>,
    capacity: usize,
}

impl View for PendingTable {
    type V = TableView;

    closed spec fn view(&self) -> TableView {
        TableView {
            entries: self.entries@.map_values(|e: FileEvent| e@),
            capacity: self.capacity as nat,
        }
    }
}

impl PendingTable {
    pub closed spec fn wf(&self) -> bool {
        self.entries@.len() <= self.capacity
    }

    /// An empty table that holds at most `capacity` keys.
    pub fn new(capacity: usize) -> (r: PendingTable)
        ensures
            r.wf(),
            r@.entries == Map::<u64, RecordView>::empty(),
            r@.capacity == capacity,
    {
        let r = PendingTable { entries: HashMap::new(), capacity };
        assert(r@.entries =~= Map::<u64, RecordView>::empty());
        r
    }

    /// Stores `rec` under `key`; returns whether there was room.
    pub fn insert(&mut self, key: u64, rec: FileEvent) -> (r: bool)
        requires
            old(self).wf(),
        ensures
            final(self).wf(),
            r == pending_has_room(old(self)@, key),
            final(self)@ == pending_insert(old(self)@, key, rec@),
    {
        assert(self@.entries.dom() =~= self.entries@.dom());
        let room = self.entries.contains_key(&key) || self.entries.len() < self.capacity;
        if room {
            self.entries.insert(key, rec);
            assert(self@.entries =~= old(self)@.entries.insert(key, rec@));
            proof {
                if old(self).entries@.contains_key(key) {
                    assert(self.entries@.dom() =~= old(self).entries@.dom());
                }
            }
        }
        room
    }

    /// Removes and returns what is pending under `key`.
    pub fn take(&mut self, key: u64) -> (r: Option<FileEvent>)
        requires
            old(self).wf(),
        ensures
            final(self).wf(),
            r is Some <==> pending_get(old(self)@, key) is Some,
            r is Some ==> pending_get(old(self)@, key) == Some(r->Some_0@),
            final(self)@ == pending_remove(old(self)@, key),
    {
        let r = self.entries.remove(&key);
        assert(self@.entries =~= old(self)@.entries.remove(key));
        proof {
            if old(self).entries@.contains_key(key) {
                assert(self.entries@.dom() =~= old(self).entries@.dom().remove(key));
            } else {
                assert(self.entries@.dom() =~= old(self).entries@.dom());
            }
        }
        r
    }
}

/// What the probes hand to userspace: a record and the descriptor of the call
/// it reports (what an open returned, or what a close was given).
#[derive(Clone, Copy, Debug)]
pub struct Emitted {
    pub record: FileEvent,
    pub fd: i64,
}

pub struct EmittedView {
    pub record: RecordView,
    pub fd: i64,
}

impl View for Emitted {
    type V = EmittedView;

    open spec fn view(&self) -> EmittedView {
        EmittedView { record: self.record@, fd: self.fd }
    }
}

/// The channel's state as plain values.
pub struct ChannelView {
    pub queue: Seq<EmittedView>,
    pub capacity: nat,
    pub dropped: nat,
}

/// The channel after offering `e`: queued when there is room, else dropped
/// and counted (the count stops at its largest value).
pub open spec fn channel_output(c: ChannelView, e: EmittedView) -> ChannelView {
    if c.queue.len() < c.capacity {
        ChannelView { queue: c.queue.push(e), ..c }
    } else {
        ChannelView {
            dropped: if c.dropped < u64::MAX {
                c.dropped + 1
            } else {
                c.dropped
            },
            ..c
        }
    }
}

/// The bounded first-in first-out channel from the probes to userspace.
pub struct EventChannel {
    queue: Vec<Emitted>,
    capacity: usize,
    dropped: u64,
}

impl View for EventChannel {
    type V = ChannelView;

    closed spec fn view(&self) -> ChannelView {
        ChannelView {
            queue: self.queue@.map_values(|e: Emitted| e@),
            capacity: self.capacity as nat,
            dropped: self.dropped as nat,
        }
    }
}

impl EventChannel {
    pub closed spec fn wf(&self) -> bool {
        self.queue@.len() <= self.capacity
    }

    /// An empty channel that holds at most `capacity` records.
    pub fn new(capacity: usize) -> (r: EventChannel)
        ensures
            r.wf(),
            r@.queue.len() == 0,
            r@.capacity == capacity,
            r@.dropped == 0,
    {
        EventChannel { queue: Vec::new(), capacity, dropped: 0 }
    }

    /// Offers `e`; it is dropped, and counted, when the channel is full.
    pub fn output(&mut self, e: Emitted)
        requires
            old(self).wf(),
        ensures
            final(self).wf(),
            final(self)@ == channel_output(old(self)@, e@),
    {
        if self.queue.len() < self.capacity {
            self.queue.push(e);
        } else if self.dropped < u64::MAX {
            self.dropped = self.dropped + 1;
        }
        assert(self@.queue =~= channel_output(old(self)@, e@).queue);
    }

    /// Takes the oldest record, if any.
    pub fn poll(&mut self) -> (r: Option<Emitted>)
        requires
            old(self).wf(),
        ensures
            final(self).wf(),
            final(self)@.capacity == old(self)@.capacity,
            final(self)@.dropped == old(self)@.dropped,
            old(self)@.queue.len() == 0 ==> r is None && final(self)@.queue == old(self)@.queue,
            old(self)@.queue.len() > 0 ==> r is Some && r->Some_0@ == old(self)@.queue[0]
                && final(self)@.queue == old(self)@.queue.drop_first(),
    {
        if self.queue.len() == 0 {
            None
        } else {
            let e = self.queue.remove(0);
            assert(self@.queue =~= old(self)@.queue.drop_first());
            Some(e)
        }
    }

    /// How many records were dropped because the channel was full.
    pub fn dropped(&self) -> (r: u64)
        ensures
            r == self@.dropped,
    {
        self.dropped
    }

    /// How many records wait to be taken.
    pub fn len(&self) -> (r: usize)
        ensures
            r == self@.queue.len(),
    {
        self.queue.len()
    }
}

/// The engine's state as plain values: the pending table and the channel.
pub struct EngineView {
    pub table: TableView,
    pub channel: ChannelView,
}

/// The state after an open's entry on the thread `key`, given the path copied
/// from the caller (`None` when the copy failed).
pub open spec fn step_open_entry(s: EngineView, key: u64, copied: Option<Seq<u8>>) -> EngineView {
    match copied {
        Some(p) => EngineView { table: pending_insert(s.table, key, open_record(key, p)), ..s },
        None => s,
    }
}

/// The state after an open's return with value `ret` on the thread `key`.
pub open spec fn step_open_return(s: EngineView, key: u64, ret: i64) -> EngineView {
    let table = pending_remove(s.table, key);
    match pending_get(s.table, key) {
        Some(rec) => if ret >= 0 {
            EngineView {
                table,
                channel: channel_output(s.channel, EmittedView { record: rec, fd: ret }),
            }
        } else {
            EngineView { table, channel: s.channel }
        },
        None => EngineView { table, channel: s.channel },
    }
}

/// The state after a close's entry with descriptor `fd` on the thread `key`.
pub open spec fn step_close(s: EngineView, key: u64, fd: i32) -> EngineView {
    EngineView {
        channel: channel_output(s.channel, EmittedView { record: close_record(key, fd), fd: fd as i64 }),
        ..s
    }
}

/// The kernel-resident state: the table of opens in flight and the channel
/// to userspace.
pub struct ProbeEngine {
    pending: PendingTable,
    events: EventChannel,
}

impl View for ProbeEngine {
    type V = EngineView;

    closed spec fn view(&self) -> EngineView {
        EngineView { table: self.pending@, channel: self.events@ }
    }
}

impl ProbeEngine {
    pub closed spec fn wf(&self) -> bool {
        self.pending.wf() && self.events.wf()
    }

    /// An engine with an empty table of `table_capacity` keys and an empty
    /// channel of `channel_capacity` records.
    pub fn new(table_capacity: usize, channel_capacity: usize) -> (r: ProbeEngine)
        ensures
            r.wf(),
            r@.table.entries == Map::<u64, RecordView>::empty(),
            r@.table.capacity == table_capacity,
            r@.channel.queue.len() == 0,
            r@.channel.capacity == channel_capacity,
            r@.channel.dropped == 0,
    {
        ProbeEngine {
            pending: PendingTable::new(table_capacity),
            events: EventChannel::new(channel_capacity),
        }
    }

    /// Takes the oldest emitted record, if any.
    pub fn poll(&mut self) -> (r: Option<Emitted>)
        requires
            old(self).wf(),
        ensures
            final(self).wf(),
            final(self)@.table == old(self)@.table,
            final(self)@.channel.capacity == old(self)@.channel.capacity,
            final(self)@.channel.dropped == old(self)@.channel.dropped,
            old(self)@.channel.queue.len() == 0 ==> r is None && final(self)@.channel.queue
                == old(self)@.channel.queue,
            old(self)@.channel.queue.len() > 0 ==> r is Some && r->Some_0@
                == old(self)@.channel.queue[0] && final(self)@.channel.queue == old(
                self,
            )@.channel.queue.drop_first(),
    {
        self.events.poll()
    }

    /// How many records the channel dropped because it was full.
    pub fn dropped(&self) -> (r: u64)
        ensures
            r == self@.channel.dropped,
    {
        self.events.dropped()
    }
}

/// The entry of an open on the thread `pid_tgid` (tgid in the high half, pid
/// in the low half), given the path copied from the caller's pointer (`None`
/// when the copy failed). Stores the record built from it until the open
/// returns. Returns 0 when it was stored, 1 when the copy failed or the
/// table had no room for it.
pub fn openat(engine: &mut ProbeEngine, pid_tgid: u64, copied: Option<&[u8; 256]>) -> (r: u32)
    requires
        old(engine).wf(),
    ensures
        final(engine).wf(),
        final(engine)@ == step_open_entry(
            old(engine)@,
            pid_tgid,
            match copied {
                Some(p) => Some(p@),
                None => None,
            },
        ),
        r == 0 <==> (copied is Some && pending_has_room(old(engine)@.table, pid_tgid)),
        r == 0 || r == 1,
{
    let p = match copied {
        Some(p) => p,
        None => {
            return 1;
        },
    };
    let mut path: [u8; 256] = *p;
    path[MAX_PATH_LEN - 1] = 0;
    let mut filename = [0u8; 64];
    extract_filename(&path, &mut filename);
    let event = FileEvent {
        pid: (pid_tgid & 0xffff_ffff) as u32,
        tgid: (pid_tgid >> 32u64) as u32,
        path,
        filename,
        event_type: EVENT_OPEN,
    };
    proof {
        let name = file_name_bytes(open_path(p@));
        assert(path@ =~= open_path(p@));
        assert(filename@ =~= name + Seq::new((MAX_FILENAME_LEN - name.len()) as nat, |j: int| 0u8));
        assert(event@ == open_record(pid_tgid, p@));
    }
    if engine.pending.insert(pid_tgid, event) {
        0
    } else {
        1
    }
}

/// The return of an open on the thread `pid_tgid` with value `ret`. Removes
/// the record stored at entry; emits it when `ret` is a descriptor (not
/// negative). Returns 1 when nothing was pending for the thread, else 0.
pub fn openat_ret(engine: &mut ProbeEngine, pid_tgid: u64, ret: i64) -> (r: u32)
    requires
        old(engine).wf(),
    ensures
        final(engine).wf(),
        final(engine)@ == step_open_return(old(engine)@, pid_tgid, ret),
        r == 0 <==> (ret < 0 || pending_get(old(engine)@.table, pid_tgid) is Some),
        r == 0 || r == 1,
{
    let pending = engine.pending.take(pid_tgid);
    if ret < 0 {
        return 0;
    }
    match pending {
        Some(event) => {
            engine.events.output(Emitted { record: event, fd: ret });
            0
        },
        None => 1,
    }
}

/// The entry of a close of `fd` on the thread `pid_tgid`: emits a close
/// record at once, whatever the call's outcome. Returns 0.
pub fn close(engine: &mut ProbeEngine, pid_tgid: u64, fd: i32) -> (r: u32)
    requires
        old(engine).wf(),
    ensures
        final(engine).wf(),
        final(engine)@ == step_close(old(engine)@, pid_tgid, fd),
        r == 0,
{
    let x = fd as u32;
    let mut path = [0u8; 256];
    path[0] = (x & 0xff) as u8;
    path[1] = ((x >> 8u32) & 0xff) as u8;
    path[2] = ((x >> 16u32) & 0xff) as u8;
    path[3] = ((x >> 24u32) & 0xff) as u8;
    let event = FileEvent {
        pid: (pid_tgid & 0xffff_ffff) as u32,
        tgid: (pid_tgid >> 32u64) as u32,
        path,
        filename: [0u8; 64],
        event_type: EVENT_CLOSE,
    };
    proof {
        assert(path@ =~= le32(x) + Seq::new((MAX_PATH_LEN - 4) as nat, |j: int| 0u8));
        assert(event.filename@ =~= Seq::new(MAX_FILENAME_LEN as nat, |j: int| 0u8));
    }
    engine.events.output(Emitted { record: event, fd: fd as i64 });
    0
}

proof fn lemma_text_end_exists(b: Seq<u8>, k: int)
    requires
        0 <= k <= b.len(),
        forall|j: int| 0 <= j < k ==> b[j] != 0,
    ensures
        is_text_end(b, text_len(b)),
    decreases b.len() - k,
{
    if k == b.len() || b[k] == 0 {
        assert(is_text_end(b, k));
    } else {
        lemma_text_end_exists(b, k + 1);
    }
}

/// The file-name buffer of an open record holds, as text, the name segment
/// of its path.
pub proof fn lemma_open_record_name(key: u64, copied: Seq<u8>)
    requires
        copied.len() == MAX_PATH_LEN,
    ensures
        open_record(key, copied).filename.len() == MAX_FILENAME_LEN,
        text_of(open_record(key, copied).filename) == file_name_bytes(open_path(copied)),
{
    let p = open_path(copied);
    lemma_text_end_exists(p, 0);
    let t = text_of(p);
    lemma_name_start_bound(t);
    let name = file_name_bytes(p);
    let f = open_record(key, copied).filename;
    assert(f.take(name.len() as int) =~= name);
    assert(forall|j: int| 0 <= j < name.len() ==> f[j] == t[name_start(t) + j]);
    lemma_text_end(f, name.len() as int);
}

/// An open whose entry copied its path and found room in the table, then
/// its return: when the return value is a descriptor, exactly one record is
/// emitted, the one built at entry, whose path holds the copied path and
/// whose file name holds its name segment; when the return value is
/// negative, nothing is emitted. Either way nothing stays pending for the
/// thread.
pub proof fn lemma_open_then_return(s: EngineView, key: u64, copied: Seq<u8>, ret: i64)
    requires
        copied.len() == MAX_PATH_LEN,
        pending_has_room(s.table, key),
        s.channel.queue.len() < s.channel.capacity,
    ensures
        ret >= 0 ==> step_open_return(step_open_entry(s, key, Some(copied)), key, ret).channel
            == (ChannelView {
            queue: s.channel.queue.push(EmittedView { record: open_record(key, copied), fd: ret }),
            ..s.channel
        }),
        ret < 0 ==> step_open_return(step_open_entry(s, key, Some(copied)), key, ret).channel
            == s.channel,
        pending_get(step_open_return(step_open_entry(s, key, Some(copied)), key, ret).table, key)
            is None,
        text_of(open_record(key, copied).path) == text_of(open_path(copied)),
        text_of(open_record(key, copied).filename) == file_name_bytes(open_path(copied)),
{
    lemma_open_record_name(key, copied);
    let s1 = step_open_entry(s, key, Some(copied));
    assert(pending_get(s1.table, key) == Some(open_record(key, copied)));
}

/// Every close emits exactly one record, whatever the call's outcome; the
/// descriptor reads back from the first four bytes of its path.
pub proof fn lemma_close_emits_one(s: EngineView, key: u64, fd: i32)
    requires
        s.channel.queue.len() < s.channel.capacity,
    ensures
        step_close(s, key, fd).channel == (ChannelView {
            queue: s.channel.queue.push(EmittedView { record: close_record(key, fd), fd: fd as i64 }),
            ..s.channel
        }),
        step_close(s, key, fd).table == s.table,
        read_le32(close_record(key, fd).path, 0) as i32 == fd,
        close_record(key, fd).event_type == EVENT_CLOSE,
{
    let x = fd as u32;
    lemma_le32_round_trip(x);
    let p = close_record(key, fd).path;
    assert(p.subrange(0, 4) =~= le32(x));
    assert(read_le32(p, 0) == read_le32(p.subrange(0, 4), 0));
    assert((fd as u32) as i32 == fd) by (bit_vector);
}

/// The channel after offering each of `es` in turn, with nothing taken.
pub open spec fn channel_burst(c: ChannelView, es: Seq<EmittedView>) -> ChannelView
    decreases es.len(),
{
    if es.len() == 0 {
        c
    } else {
        channel_output(channel_burst(c, es.drop_last()), es.last())
    }
}

/// How many of `n` records offered in a row a channel in state `c` takes.
pub open spec fn burst_accepted(c: ChannelView, n: nat) -> nat {
    let room = (c.capacity - c.queue.len()) as nat;
    if n <= room {
        n
    } else {
        room
    }
}

/// Offering records faster than they are taken never overfills the channel:
/// it takes the first ones up to its room, in order, and drops and counts
/// every other one.
pub proof fn lemma_burst_drops(c: ChannelView, es: Seq<EmittedView>)
    requires
        c.queue.len() <= c.capacity,
        c.dropped + es.len() <= u64::MAX,
    ensures
        channel_burst(c, es).capacity == c.capacity,
        channel_burst(c, es).queue.len() <= c.capacity,
        channel_burst(c, es).queue == c.queue + es.take(burst_accepted(c, es.len()) as int),
        channel_burst(c, es).dropped == c.dropped + (es.len() - burst_accepted(c, es.len())),
    decreases es.len(),
{
    if es.len() > 0 {
        let prev = es.drop_last();
        lemma_burst_drops(c, prev);
        let n = burst_accepted(c, prev.len());
        if n < c.capacity - c.queue.len() {
            assert(es.take((n + 1) as int) =~= prev.take(n as int).push(es.last()));
        } else {
            assert(es.take(n as int) =~= prev.take(n as int));
        }
    } else {
        assert(es.take(0) =~= Seq::<EmittedView>::empty());
    }
}

} // verus!
