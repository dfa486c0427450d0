//! The userspace side of the probes: the monitoring lifecycle, and the
//! decoding of emitted records into events, with a process-name cache and a
//! bounded table of recently opened descriptors that names the file a close
//! refers to.

use std::collections::HashMap;
use vstd::prelude::*;
use vstd::string::*;
use vstd::utf8::*;
use crate::common::{read_le32, text_of, RecordError, EVENT_CLOSE, EVENT_OPEN, MAX_PATH_LEN};
use crate::file_event::{
    append_signed, signed_decimal, FileAction, FileEvent,
};
use crate::probe::{
    close_record, lemma_close_emits_one, lemma_open_then_return, open_path, open_record, pid_of,
    pending_has_room, step_close, step_open_entry, step_open_return, Emitted, EmittedView,
    EngineView,
};

verus! {

broadcast use vstd::std_specs::hash::group_hash_axioms;

/// Depth of the queue of decoded events handed to the consumer.
pub const EVENT_QUEUE_SIZE: usize = 1024;

/// How many opened descriptors are remembered; past it the oldest is forgotten.
pub const FD_TABLE_CAPACITY: usize = 1024;

/// Why monitoring could not start.
#[derive(Clone, Copy, Debug, PartialEq, Eq, Structural)]
pub enum MonitorError {
    /// Monitoring is already running.
    AlreadyRunning,
    /// The process lacks the privilege to load and attach the probes.
    NotPrivileged,
    /// The BPF filesystem is not mounted, so the probes cannot be loaded.
    BpfFsMissing,
}

/// The monitor's state as plain values.
pub struct MonitorView {
    pub monitoring: bool,
    pub names: Map<u32, Seq<char>>,
    pub files: Seq<(u32, i64, Seq<char>)>,
}

/// The path remembered for descriptor `fd` of `pid`, the latest open winning.
pub open spec fn path_lookup(s: Seq<(u32, i64, Seq<char>)>, pid: u32, fd: i64) -> Option<
    Seq<char>,
>
    decreases s.len(),
{
    if s.len() == 0 {
        None
    } else if s.last().0 == pid && s.last().1 == fd {
        Some(s.last().2)
    } else {
        path_lookup(s.drop_last(), pid, fd)
    }
}

/// The descriptor table after remembering an open, the oldest entry
/// forgotten when the table is full.
pub open spec fn remember_open(s: Seq<(u32, i64, Seq<char>)>, e: (u32, i64, Seq<char>)) -> Seq<
    (u32, i64, Seq<char>),
> {
    if s.len() < FD_TABLE_CAPACITY {
        s.push(e)
    } else {
        s.drop_first().push(e)
    }
}

/// What stands for the path of a close whose open is not remembered.
pub open spec fn descriptor_placeholder(fd: i64) -> Seq<char> {
    "fd "@ + signed_decimal(fd as int)
}

/// What decoding an emitted record gives, as plain values.
pub enum DecodeOutcome {
    /// An event with this action, path and process.
    Event { action: FileAction, path: Seq<char>, pid: u32 },
    /// The record is refused.
    Refused(RecordError),
}

/// What decoding `item` gives, with `files` the remembered descriptors: an
/// open gives its UTF-8 text as path; a close gives the path its
/// descriptor was opened with, or a placeholder.
pub open spec fn decode_outcome(files: Seq<(u32, i64, Seq<char>)>, item: EmittedView) -> DecodeOutcome {
    let rec = item.record;
    if rec.event_type == EVENT_OPEN {
        if valid_utf8(text_of(rec.path)) {
            DecodeOutcome::Event {
                action: FileAction::Opened,
                path: decode_utf8(text_of(rec.path)),
                pid: rec.pid,
            }
        } else {
            DecodeOutcome::Refused(RecordError::InvalidUtf8)
        }
    } else if rec.event_type == EVENT_CLOSE {
        let fd = read_le32(rec.path, 0) as i32 as i64;
        DecodeOutcome::Event {
            action: FileAction::Closed,
            path: match path_lookup(files, rec.pid, fd) {
                Some(p) => p,
                None => descriptor_placeholder(fd),
            },
            pid: rec.pid,
        }
    } else {
        DecodeOutcome::Refused(RecordError::UnknownEventType(rec.event_type))
    }
}

/// The text left of `s` once leading and trailing whitespace is removed.
pub uninterp spec fn trim_of(s: Seq<char>) -> Seq<char>;

/// Relies on `str::trim`: `s` without its leading and trailing whitespace.
#[verifier::external_body]
fn trim_text(s: &str) -> (r: String)
    ensures
        r@ == trim_of(s@),
{
    s.trim().to_string()
}

/// The name a process is given from the contents of its `comm` entry
/// (`None` when it could not be read).
pub open spec fn name_from_comm(comm: Option<Seq<char>>) -> Seq<char> {
    match comm {
        Some(c) => trim_of(c),
        None => "unknown"@,
    }
}

/// The name that the process `pid` has: the cached one, else the one from `comm`.
pub open spec fn resolved_name(names: Map<u32, Seq<char>>, pid: u32, comm: Option<Seq<char>>) -> Seq<char> {
    if names.contains_key(pid) {
        names[pid]
    } else {
        name_from_comm(comm)
    }
}

/// The name cache after naming the process `pid`: unchanged when the name
/// was cached, else with `name` added.
pub open spec fn names_after(names: Map<u32, Seq<char>>, pid: u32, name: Seq<char>) -> Map<u32, Seq<char>> {
    if names.contains_key(pid) {
        names
    } else {
        names.insert(pid, name)
    }
}

/// The lifecycle of monitoring and the state its decoding keeps.
pub struct EbpfMonitor {
    is_monitoring: bool,
    process_cache: HashMap<u32, String>,
    open_files: Vec<(u32, i64, String)>,
}

impl View for EbpfMonitor {
    type V = MonitorView;

    closed spec fn view(&self) -> MonitorView {
        MonitorView {
            monitoring: self.is_monitoring,
            names: self.process_cache@.map_values(|e: String| e@),
            files: self.open_files@.map_values(|e: (u32, i64, String)| (e.0, e.1, e.2@)),
        }
    }
}

impl EbpfMonitor {
    pub closed spec fn wf(&self) -> bool {
        self.open_files@.len() <= FD_TABLE_CAPACITY
    }

    /// A monitor that is not running and remembers nothing.
    pub fn new() -> (r: Result<EbpfMonitor, MonitorError>)
        ensures
            r is Ok,
            r->Ok_0.wf(),
            !r->Ok_0@.monitoring,
            r->Ok_0@.names == Map::<u32, Seq<char>>::empty(),
            r->Ok_0@.files.len() == 0,
    {
        let m = EbpfMonitor {
            is_monitoring: false,
            process_cache: HashMap::new(),
            open_files: Vec::new(),
        };
        assert(m@.names =~= Map::empty());
        assert(m@.files =~= Seq::empty());
        Ok(m)
    }

    /// The outcome of the support check on the given facts.
    pub open spec fn check_ebpf_support_spec(is_root: bool, bpf_fs_present: bool) -> Result<
        (),
        MonitorError,
    > {
        if !is_root {
            Err(MonitorError::NotPrivileged)
        } else if !bpf_fs_present {
            Err(MonitorError::BpfFsMissing)
        } else {
            Ok(())
        }
    }

    /// Whether the system can host the probes: the process must be
    /// privileged (`is_root`), and the BPF filesystem must be mounted. A
    /// missing privilege is reported first.
    pub fn check_ebpf_support(is_root: bool, bpf_fs_present: bool) -> (r: Result<(), MonitorError>)
        ensures
            r is Ok <==> is_root && bpf_fs_present,
            r == EbpfMonitor::check_ebpf_support_spec(is_root, bpf_fs_present),
    {
        if !is_root {
            return Err(MonitorError::NotPrivileged);
        }
        if !bpf_fs_present {
            return Err(MonitorError::BpfFsMissing);
        }
        Ok(())
    }

    /// Whether monitoring is running.
    pub fn is_monitoring(&self) -> (r: bool)
        ensures
            r == self@.monitoring,
    {
        self.is_monitoring
    }

    /// Moves from idle to monitoring. Fails, changing nothing, when
    /// monitoring already runs, or when the system cannot host the probes
    /// (see `check_ebpf_support`).
    pub fn start_monitoring(&mut self, is_root: bool, bpf_fs_present: bool) -> (r: Result<
        (),
        MonitorError,
    >)
        requires
            old(self).wf(),
        ensures
            final(self).wf(),
            old(self)@.monitoring ==> r == Err::<(), MonitorError>(MonitorError::AlreadyRunning),
            !old(self)@.monitoring ==> r == EbpfMonitor::check_ebpf_support_spec(is_root, bpf_fs_present),
            r is Ok <==> !old(self)@.monitoring && is_root && bpf_fs_present,
            r is Ok ==> final(self)@ == (MonitorView { monitoring: true, ..old(self)@ }),
            r is Err ==> final(self)@ == old(self)@,
    {
        if self.is_monitoring {
            return Err(MonitorError::AlreadyRunning);
        }
        match EbpfMonitor::check_ebpf_support(is_root, bpf_fs_present) {
            Ok(()) => {},
            Err(e) => {
                return Err(e);
            },
        }
        self.is_monitoring = true;
        Ok(())
    }

    /// Moves to idle and forgets the cached names and descriptors; when
    /// monitoring is not running it changes nothing. Never fails.
    pub fn stop_monitoring(&mut self) -> (r: Result<(), MonitorError>)
        requires
            old(self).wf(),
        ensures
            final(self).wf(),
            r is Ok,
            !old(self)@.monitoring ==> final(self)@ == old(self)@,
            old(self)@.monitoring ==> final(self)@ == (MonitorView {
                monitoring: false,
                names: Map::empty(),
                files: Seq::empty(),
            }),
    {
        if !self.is_monitoring {
            return Ok(());
        }
        self.is_monitoring = false;
        self.process_cache = HashMap::new();
        self.open_files = Vec::new();
        assert(self@.names =~= Map::empty());
        assert(self@.files =~= Seq::empty());
        Ok(())
    }
}

impl EbpfMonitor {
    /// The name cached for `pid`, if any.
    pub fn cached_process_name(&self, pid: u32) -> (r: Option<String>)
        ensures
            r is Some <==> self@.names.contains_key(pid),
            r is Some ==> self@.names[pid] == r->Some_0@,
    {
        match self.process_cache.get(&pid) {
            Some(name) => Some(name.clone()),
            None => None,
        }
    }

    /// The name of the process `pid`: the cached one, else the one that its
    /// `comm` entry gives (`comm` is what was read from it, `None` when it
    /// could not be read), which is then cached.
    pub fn get_process_name(&mut self, pid: u32, comm: Option<String>) -> (r: String)
        requires
            old(self).wf(),
        ensures
            final(self).wf(),
            r@ == resolved_name(
                old(self)@.names,
                pid,
                match comm {
                    Some(c) => Some(c@),
                    None => None,
                },
            ),
            final(self)@.monitoring == old(self)@.monitoring,
            final(self)@.files == old(self)@.files,
            final(self)@.names == names_after(old(self)@.names, pid, r@),
    {
        match self.cached_process_name(pid) {
            Some(name) => name,
            None => {
                let name = match comm {
                    Some(c) => trim_text(c.as_str()),
                    None => String::from_str("unknown"),
                };
                self.process_cache.insert(pid, name.clone());
                assert(self@.names =~= old(self)@.names.insert(pid, name@));
                name
            },
        }
    }

    /// The path remembered for descriptor `fd` of `pid`, if any.
    fn remembered_path(&self, pid: u32, fd: i64) -> (r: Option<String>)
        ensures
            r is Some <==> path_lookup(self@.files, pid, fd) is Some,
            r is Some ==> path_lookup(self@.files, pid, fd) == Some(r->Some_0@),
    {
        let ghost files = self@.files;
        let mut i: usize = self.open_files.len();
        assert(files.take(i as int) =~= files);
        while i > 0
            invariant
                0 <= i <= self.open_files@.len(),
                files == self@.files,
                path_lookup(files, pid, fd) == path_lookup(files.take(i as int), pid, fd),
            decreases i,
        {
            assert(files.take(i as int).drop_last() =~= files.take(i - 1));
            if self.open_files[i - 1].0 == pid && self.open_files[i - 1].1 == fd {
                return Some(self.open_files[i - 1].2.clone());
            }
            i = i - 1;
        }
        None
    }

    /// Remembers that `pid` opened `path` as descriptor `fd`.
    fn remember(&mut self, pid: u32, fd: i64, path: String)
        requires
            old(self).wf(),
        ensures
            final(self).wf(),
            final(self)@ == (MonitorView {
                files: remember_open(old(self)@.files, (pid, fd, path@)),
                ..old(self)@
            }),
    {
        if self.open_files.len() >= FD_TABLE_CAPACITY {
            self.open_files.remove(0);
        }
        self.open_files.push((pid, fd, path));
        assert(self@.files =~= remember_open(old(self)@.files, (pid, fd, path@)));
    }

    /// Turns an emitted record into an event observed at `timestamp`, the
    /// program named from `comm` (what the `comm` entry of the record's
    /// process holds, `None` when it could not be read) unless its name is
    /// cached. An open must carry UTF-8 text and is remembered under the
    /// descriptor it returned; a close is named by the path its descriptor
    /// was opened with, or by a placeholder when that open is not
    /// remembered. A record of another type is refused. A refused record
    /// changes nothing.
    pub fn decode(&mut self, item: &Emitted, comm: Option<String>, timestamp: i64) -> (r: Result<
        FileEvent,
        RecordError,
    >)
        requires
            old(self).wf(),
        ensures
            final(self).wf(),
            final(self)@.monitoring == old(self)@.monitoring,
            r is Err ==> final(self)@ == old(self)@,
            match decode_outcome(old(self)@.files, item@) {
                DecodeOutcome::Event { action, path, pid } => r is Ok && r->Ok_0.action == action
                    && r->Ok_0.file_path@ == path && r->Ok_0.pid == pid,
                DecodeOutcome::Refused(e) => r == Err::<FileEvent, RecordError>(e),
            },
            item.record.event_type != EVENT_OPEN && item.record.event_type != EVENT_CLOSE ==> r
                == Err::<FileEvent, RecordError>(
                RecordError::UnknownEventType(item.record.event_type),
            ),
            item.record.event_type == EVENT_OPEN ==> (r is Ok <==> valid_utf8(
                text_of(item.record.path@),
            )),
            item.record.event_type == EVENT_OPEN && r is Err ==> r->Err_0
                == RecordError::InvalidUtf8,
            item.record.event_type == EVENT_CLOSE ==> r is Ok,
            r is Ok ==> final(self)@.names == names_after(
                old(self)@.names,
                item.record.pid,
                r->Ok_0.program_name@,
            ),
            r is Ok ==> r->Ok_0.pid == item.record.pid && r->Ok_0.timestamp == timestamp
                && r->Ok_0.program_name@ == resolved_name(
                old(self)@.names,
                item.record.pid,
                match comm {
                    Some(c) => Some(c@),
                    None => None,
                },
            ),
            item.record.event_type == EVENT_OPEN && r is Ok ==> r->Ok_0.action
                == FileAction::Opened && encode_utf8(r->Ok_0.file_path@) == text_of(
                item.record.path@,
            ) && final(self)@.files == remember_open(
                old(self)@.files,
                (item.record.pid, item.fd, r->Ok_0.file_path@),
            ),
            item.record.event_type == EVENT_CLOSE ==> r->Ok_0.action == FileAction::Closed
                && final(self)@.files == old(self)@.files && r->Ok_0.file_path@ == match path_lookup(
                old(self)@.files,
                item.record.pid,
                read_le32(item.record.path@, 0) as i32 as i64,
            ) {
                Some(p) => p,
                None => descriptor_placeholder(read_le32(item.record.path@, 0) as i32 as i64),
            },
    {
        let rec = item.record;
        if rec.is_open() {
            let path = match rec.path_str() {
                Ok(p) => p,
                Err(e) => {
                    return Err(e);
                },
            };
            proof {
                encode_utf8_decode_utf8(path@);
            }
            let name = self.get_process_name(rec.pid, comm);
            self.remember(rec.pid, item.fd, path.clone());
            Ok(FileEvent::with_timestamp(path, name, FileAction::Opened, rec.pid, timestamp))
        } else if rec.is_close() {
            let fd = rec.descriptor() as i64;
            let path = match self.remembered_path(rec.pid, fd) {
                Some(p) => p,
                None => {
                    let mut p = String::new();
                    p.append("fd ");
                    append_signed(&mut p, fd);
                    p
                },
            };
            let name = self.get_process_name(rec.pid, comm);
            Ok(FileEvent::with_timestamp(path, name, FileAction::Closed, rec.pid, timestamp))
        } else {
            Err(RecordError::UnknownEventType(rec.event_type))
        }
    }
}

/// A successful open (its entry copied the path and found room, its return
/// gave a descriptor) puts exactly one record on the channel, and that
/// record decodes to one `Opened` event of the thread's pid whose path is
/// the text copied at entry; a failed open puts nothing on the channel.
pub proof fn lemma_open_decodes_once(
    s: EngineView,
    key: u64,
    copied: Seq<u8>,
    ret: i64,
    files: Seq<(u32, i64, Seq<char>)>,
)
    requires
        copied.len() == MAX_PATH_LEN,
        pending_has_room(s.table, key),
        s.channel.queue.len() < s.channel.capacity,
    ensures
        ret >= 0 ==> step_open_return(step_open_entry(s, key, Some(copied)), key, ret).channel.queue
            == s.channel.queue.push(EmittedView { record: open_record(key, copied), fd: ret }),
        ret >= 0 && valid_utf8(text_of(open_path(copied))) ==> decode_outcome(
            files,
            EmittedView { record: open_record(key, copied), fd: ret },
        ) == (DecodeOutcome::Event {
            action: FileAction::Opened,
            path: decode_utf8(text_of(open_path(copied))),
            pid: pid_of(key),
        }),
        ret < 0 ==> step_open_return(step_open_entry(s, key, Some(copied)), key, ret).channel
            == s.channel,
{
    lemma_open_then_return(s, key, copied, ret);
}

/// Every close puts exactly one record on the channel, whatever the call's
/// outcome, and it decodes to one `Closed` event of the thread's pid, named
/// by the path its descriptor was opened with, or by a placeholder.
pub proof fn lemma_close_decodes_once(s: EngineView, key: u64, fd: i32, files: Seq<(u32, i64, Seq<char>)>)
    requires
        s.channel.queue.len() < s.channel.capacity,
    ensures
        step_close(s, key, fd).channel.queue == s.channel.queue.push(
            EmittedView { record: close_record(key, fd), fd: fd as i64 },
        ),
        decode_outcome(files, EmittedView { record: close_record(key, fd), fd: fd as i64 }) == (
        DecodeOutcome::Event {
            action: FileAction::Closed,
            path: match path_lookup(files, pid_of(key), fd as i64) {
                Some(p) => p,
                None => descriptor_placeholder(fd as i64),
            },
            pid: pid_of(key),
        }),
{
    lemma_close_emits_one(s, key, fd);
}

} // verus!
