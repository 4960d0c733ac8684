//! An in-order command queue over device buffers. Commands are recorded at
//! enqueue time, each with its event and wait-list, and run in submission
//! order when the queue is finished. A callback registered on an event fires
//! once, when the event reaches a terminal status.
use vstd::prelude::*;
use crate::error::OclError;
use crate::event::{Delivery, Event, EventStatus};
use crate::kernel::{all_bound, Kernel, KernelArg, KernelEntry};

verus! {

/// A handle to a device buffer of `len` elements.
#[derive(Clone, Copy, Debug, PartialEq, Eq, Structural)]
pub struct Buffer {
    pub id: usize,
    pub len: usize,
}

/// An enqueued command, with its arguments captured at enqueue time.
pub enum Command {
    Write { buffer: usize, data: Vec<u32> },
    Read { buffer: usize },
    AddScalar { src: usize, addend: u32, dst: usize, global: usize },
    Copy { src: usize, dst: usize },
}

/// The mathematical form of a command.
pub enum CmdModel {
    Write { buffer: int, data: Seq<u32> },
    Read { buffer: int },
    AddScalar { src: int, addend: u32, dst: int, global: int },
    Copy { src: int, dst: int },
}

impl Command {
    pub open spec fn view(&self) -> CmdModel {
        match self {
            Command::Write { buffer, data } => CmdModel::Write { buffer: *buffer as int, data: data@ },
            Command::Read { buffer } => CmdModel::Read { buffer: *buffer as int },
            Command::AddScalar { src, addend, dst, global } => CmdModel::AddScalar {
                src: *src as int,
                addend: *addend,
                dst: *dst as int,
                global: *global as int,
            },
            Command::Copy { src, dst } => CmdModel::Copy { src: *src as int, dst: *dst as int },
        }
    }
}

/// The whole state of a queue and the buffers it serves.
pub struct QueueModel {
    /// Contents of each buffer, by buffer id.
    pub bufs: Seq<Seq<u32>>,
    /// Commands by event id.
    pub commands: Seq<CmdModel>,
    /// Wait-list of each command, as event ids.
    pub waits: Seq<Seq<int>>,
    /// Status of each event.
    pub status: Seq<EventStatus>,
    /// What each completed read captured; empty for other commands.
    pub reads: Seq<Seq<u32>>,
    /// Context handle registered on each event, if any.
    pub callbacks: Seq<Option<u64>>,
    /// Commands that the device reported as failed before they ran.
    pub faults: Seq<bool>,
    /// Callbacks fired so far, in the order they fired.
    pub deliveries: Seq<Delivery>,
    /// Commands before this index have run.
    pub done: int,
}

/// `src[i] + addend` (wrapping) at each index below `global`, `dst` elsewhere.
pub open spec fn add_scalar_seq(src: Seq<u32>, addend: u32, dst: Seq<u32>, global: int) -> Seq<u32> {
    Seq::new(
        dst.len(),
        |i: int|
            if i < global {
                ((src[i] + addend) % 0x1_0000_0000) as u32
            } else {
                dst[i]
            },
    )
}

/// What a successful command does to the buffers.
pub open spec fn effect(bufs: Seq<Seq<u32>>, c: CmdModel) -> Seq<Seq<u32>> {
    match c {
        CmdModel::Write { buffer, data } => bufs.update(buffer, data),
        CmdModel::Read { buffer } => bufs,
        CmdModel::AddScalar { src, addend, dst, global } => bufs.update(
            dst,
            add_scalar_seq(bufs[src], addend, bufs[dst], global),
        ),
        CmdModel::Copy { src, dst } => bufs.update(dst, bufs[src]),
    }
}

/// A command fails when the device reported it failed or an event of its
/// wait-list ended in error, and completes otherwise.
pub open spec fn outcome(status: Seq<EventStatus>, wait: Seq<int>, fault: bool) -> EventStatus {
    if fault || exists|j: int| 0 <= j < wait.len() && status[#[trigger] wait[j]] == EventStatus::Error {
        EventStatus::Error
    } else {
        EventStatus::Complete
    }
}

/// Runs the next command: it takes its outcome from its wait-list, changes
/// the buffers only on success, and fires the event's callback, if any.
pub open spec fn step(m: QueueModel) -> QueueModel {
    let k = m.done;
    let c = m.commands[k];
    let st = outcome(m.status, m.waits[k], m.faults[k]);
    let ok = st == EventStatus::Complete;
    QueueModel {
        bufs: if ok {
            effect(m.bufs, c)
        } else {
            m.bufs
        },
        reads: m.reads.update(
            k,
            match c {
                CmdModel::Read { buffer } => if ok {
                    m.bufs[buffer]
                } else {
                    Seq::empty()
                },
                _ => Seq::empty(),
            },
        ),
        status: m.status.update(k, st),
        deliveries: match m.callbacks[k] {
            Some(ctx) => m.deliveries.push(
                Delivery { event: Event { id: k as usize }, status: st.code_spec(), context: ctx },
            ),
            None => m.deliveries,
        },
        done: k + 1,
        ..m
    }
}

/// The state after `n` more commands have run.
pub open spec fn run(m: QueueModel, n: nat) -> QueueModel
    decreases n,
{
    if n == 0 {
        m
    } else {
        step(run(m, (n - 1) as nat))
    }
}

/// Records a new command, queued, with no callback and nothing read.
pub open spec fn enqueue_model(m: QueueModel, c: CmdModel, wait: Seq<int>) -> QueueModel {
    QueueModel {
        commands: m.commands.push(c),
        waits: m.waits.push(wait),
        status: m.status.push(EventStatus::Queued),
        reads: m.reads.push(Seq::empty()),
        callbacks: m.callbacks.push(None),
        faults: m.faults.push(false),
        ..m
    }
}

impl QueueModel {
    pub open spec fn valid_buffer(self, b: Buffer) -> bool {
        b.id < self.bufs.len() && self.bufs[b.id as int].len() == b.len
    }

    pub open spec fn valid_waits(self, wait: Seq<Event>) -> bool {
        forall|j: int| 0 <= j < wait.len() ==> (#[trigger] wait[j]).id < self.commands.len()
    }

    /// The command a kernel's arguments describe, when they fit its entry
    /// point and the buffers they name.
    pub open spec fn resolve(self, entry: KernelEntry, args: Seq<KernelArg>, global: usize) -> Option<
        CmdModel,
    > {
        match entry {
            KernelEntry::AddScalar => if args.len() == 3 && args[0] is Buf && args[1] is Scalar
                && args[2] is Buf && self.valid_buffer(args[0]->Buf_0) && self.valid_buffer(
                args[2]->Buf_0,
            ) && global <= args[0]->Buf_0.len && global <= args[2]->Buf_0.len {
                Some(
                    CmdModel::AddScalar {
                        src: args[0]->Buf_0.id as int,
                        addend: args[1]->Scalar_0,
                        dst: args[2]->Buf_0.id as int,
                        global: global as int,
                    },
                )
            } else {
                None
            },
        }
    }

    /// A command names only buffers that exist, with lengths that fit.
    pub open spec fn cmd_fits(self, c: CmdModel) -> bool {
        match c {
            CmdModel::Write { buffer, data } => 0 <= buffer < self.bufs.len() && data.len()
                == self.bufs[buffer].len(),
            CmdModel::Read { buffer } => 0 <= buffer < self.bufs.len(),
            CmdModel::AddScalar { src, addend, dst, global } => 0 <= src < self.bufs.len() && 0
                <= dst < self.bufs.len() && 0 <= global <= self.bufs[src].len() && global
                <= self.bufs[dst].len(),
            CmdModel::Copy { src, dst } => 0 <= src < self.bufs.len() && 0 <= dst
                < self.bufs.len() && self.bufs[src].len() == self.bufs[dst].len(),
        }
    }

    /// The queue's invariant: commands before `done` have a terminal status
    /// and the rest do not; wait-lists name earlier events; each delivery is
    /// for a distinct terminal event with a callback, carries its status and
    /// context, and every terminal event with a callback has one.
    pub open spec fn wf(self) -> bool {
        let n = self.commands.len();
        &&& n <= usize::MAX
        &&& self.waits.len() == n
        &&& self.status.len() == n
        &&& self.reads.len() == n
        &&& self.callbacks.len() == n
        &&& self.faults.len() == n
        &&& 0 <= self.done <= n
        &&& forall|k: int| 0 <= k < n ==> (#[trigger] self.status[k]).is_terminal() == (k
            < self.done)
        &&& forall|k: int, j: int|
            0 <= k < n && 0 <= j < self.waits[k].len() ==> 0 <= #[trigger] self.waits[k][j] < k
        &&& forall|k: int| 0 <= k < n ==> self.cmd_fits(#[trigger] self.commands[k])
        &&& forall|i: int|
            0 <= i < self.deliveries.len() ==> {
                let d = #[trigger] self.deliveries[i];
                &&& d.event.id < n
                &&& self.status[d.event.id as int].is_terminal()
                &&& self.callbacks[d.event.id as int] == Some(d.context)
                &&& d.status == self.status[d.event.id as int].code_spec()
            }
        &&& forall|i: int, j: int|
            0 <= i < j < self.deliveries.len() ==> (#[trigger] self.deliveries[i]).event
                != (#[trigger] self.deliveries[j]).event
        &&& forall|k: int|
            0 <= k < n && (#[trigger] self.callbacks[k]) is Some && self.status[k].is_terminal()
                ==> exists|i: int|
                0 <= i < self.deliveries.len() && (#[trigger] self.deliveries[i]).event.id == k
    }
}

/// A queue together with the buffers it serves.
pub struct CommandQueue {
    buffers: Vec<Vec<u32>>,
    commands: Vec<Command>,
    waits: Vec<Vec<usize>>,
    status: Vec<EventStatus>,
    reads: Vec<Vec<u32>>,
    callbacks: Vec<Option<u64>>,
    faults: Vec<bool>,
    deliveries: Vec<Delivery>,
    done: usize,
}

/// Event ids of a wait-list.
pub open spec fn wait_ids(wait: Seq<Event>) -> Seq<int> {
    wait.map_values(|e: Event| e.id as int)
}

impl View for CommandQueue {
    type V = QueueModel;

    closed spec fn view(&self) -> QueueModel {
        QueueModel {
            bufs: self.buffers@.map_values(|b: Vec<u32>| b@),
            commands: self.commands@.map_values(|c: Command| c.view()),
            waits: self.waits@.map_values(|w: Vec<usize>| w@.map_values(|e: usize| e as int)),
            status: self.status@,
            reads: self.reads@.map_values(|b: Vec<u32>| b@),
            callbacks: self.callbacks@,
            faults: self.faults@,
            deliveries: self.deliveries@,
            done: self.done as int,
        }
    }
}

fn copy_slice(s: &[u32]) -> (r: Vec<u32>)
    ensures
        r@ == s@,
{
    let mut r: Vec<u32> = Vec::new();
    let mut i: usize = 0;
    while i < s.len()
        invariant
            i <= s@.len(),
            r@ == s@.take(i as int),
        decreases s@.len() - i,
    {
        r.push(s[i]);
        i = i + 1;
        assert(r@ =~= s@.take(i as int));
    }
    assert(s@.take(s@.len() as int) =~= s@);
    r
}

fn zeros(len: usize) -> (r: Vec<u32>)
    ensures
        r@ == Seq::new(len as nat, |i: int| 0u32),
{
    let mut r: Vec<u32> = Vec::new();
    let mut i: usize = 0;
    while i < len
        invariant
            i <= len,
            r@ == Seq::new(i as nat, |j: int| 0u32),
        decreases len - i,
    {
        r.push(0);
        i = i + 1;
        assert(r@ =~= Seq::new(i as nat, |j: int| 0u32));
    }
    r
}

fn add_scalar_vec(src: &Vec<u32>, addend: u32, dst: &Vec<u32>, global: usize) -> (r: Vec<u32>)
    requires
        global <= src@.len(),
        global <= dst@.len(),
    ensures
        r@ == add_scalar_seq(src@, addend, dst@, global as int),
{
    let mut r: Vec<u32> = Vec::new();
    let n = dst.len();
    let mut i: usize = 0;
    while i < n
        invariant
            n == dst@.len(),
            global <= src@.len(),
            global <= n,
            i <= n,
            r@ == add_scalar_seq(src@, addend, dst@, global as int).take(i as int),
        decreases n - i,
    {
        let x = if i < global {
            ((src[i] as u64 + addend as u64) % 0x1_0000_0000) as u32
        } else {
            dst[i]
        };
        r.push(x);
        i = i + 1;
        assert(r@ =~= add_scalar_seq(src@, addend, dst@, global as int).take(i as int));
    }
    assert(add_scalar_seq(src@, addend, dst@, global as int).take(n as int) =~= add_scalar_seq(
        src@,
        addend,
        dst@,
        global as int,
    ));
    r
}

proof fn lemma_effect_lens(m: QueueModel, c: CmdModel)
    requires
        m.cmd_fits(c),
    ensures
        effect(m.bufs, c).len() == m.bufs.len(),
        forall|i: int| 0 <= i < m.bufs.len() ==> (#[trigger] effect(m.bufs, c)[i]).len() == m.bufs[i].len(),
{
}

impl CommandQueue {
    /// An empty queue with no buffers.
    pub fn new() -> (r: CommandQueue)
        ensures
            r@.wf(),
            r@.bufs == Seq::<Seq<u32>>::empty(),
            r@.commands == Seq::<CmdModel>::empty(),
            r@.deliveries == Seq::<Delivery>::empty(),
            r@.done == 0,
    {
        let r = CommandQueue {
            buffers: Vec::new(),
            commands: Vec::new(),
            waits: Vec::new(),
            status: Vec::new(),
            reads: Vec::new(),
            callbacks: Vec::new(),
            faults: Vec::new(),
            deliveries: Vec::new(),
            done: 0,
        };
        assert(r@.bufs =~= Seq::<Seq<u32>>::empty());
        assert(r@.commands =~= Seq::<CmdModel>::empty());
        r
    }

    pub fn buffer_ok(&self, b: Buffer) -> (r: bool)
        ensures
            r == self@.valid_buffer(b),
    {
        b.id < self.buffers.len() && self.buffers[b.id].len() == b.len
    }

    fn waits_ok(&self, wait: &[Event]) -> (r: bool)
        ensures
            r == self@.valid_waits(wait@),
    {
        let mut i: usize = 0;
        while i < wait.len()
            invariant
                i <= wait@.len(),
                forall|j: int| 0 <= j < i ==> (#[trigger] wait@[j]).id < self@.commands.len(),
            decreases wait@.len() - i,
        {
            if wait[i].id >= self.commands.len() {
                return false;
            }
            i = i + 1;
        }
        true
    }

    /// Records `cmd` with its wait-list and returns its event.
    fn push_command(&mut self, cmd: Command, wait: &[Event]) -> (r: Event)
        requires
            old(self)@.wf(),
            old(self)@.cmd_fits(cmd@),
            old(self)@.valid_waits(wait@),
        ensures
            final(self)@.wf(),
            final(self)@ == enqueue_model(old(self)@, cmd@, wait_ids(wait@)),
            r.id == old(self)@.commands.len(),
    {
        let ghost m = self@;
        let mut ids: Vec<usize> = Vec::new();
        let mut i: usize = 0;
        while i < wait.len()
            invariant
                i <= wait@.len(),
                ids@.len() == i,
                forall|j: int| 0 <= j < i ==> ids@[j] == (#[trigger] wait@[j]).id,
            decreases wait@.len() - i,
        {
            ids.push(wait[i].id);
            i = i + 1;
        }
        assert(ids@.map_values(|e: usize| e as int) =~= wait_ids(wait@));
        let id = self.commands.len();
        self.commands.push(cmd);
        self.waits.push(ids);
        self.status.push(EventStatus::Queued);
        self.reads.push(Vec::new());
        self.callbacks.push(None);
        self.faults.push(false);
        let ghost e = enqueue_model(m, cmd@, wait_ids(wait@));
        assert(self@.commands =~= e.commands);
        assert(self@.waits =~= e.waits);
        assert(self@.status =~= e.status);
        assert(self@.reads =~= e.reads);
        assert(self@.callbacks =~= e.callbacks);
        assert(self@.faults =~= e.faults);
        assert(self@.bufs =~= e.bufs);
        assert(self@ == e);
        let total = self.commands.len();
        assert(total == e.commands.len());
        proof {
            lemma_enqueue_wf(m, cmd@, wait_ids(wait@));
        }
        Event { id }
    }
}

/// Contents of a new buffer: the init sequence, or zeros.
pub open spec fn init_contents(length: usize, init: Option<Seq<u32>>) -> Seq<u32> {
    match init {
        Some(s) => s,
        None => Seq::new(length as nat, |i: int| 0u32),
    }
}

/// Arguments of a kernel whose arguments are all bound.
pub open spec fn unwrap_args(args: Seq<Option<KernelArg>>) -> Seq<KernelArg> {
    args.map_values(|a: Option<KernelArg>| a->Some_0)
}

impl Buffer {
    /// Allocates a buffer of `length` elements served by `queue`, holding
    /// `init` when one is given and zeros otherwise; `SizeMismatch` when
    /// `init` has another length.
    pub fn create(queue: &mut CommandQueue, length: usize, init: Option<&[u32]>) -> (r: Result<
        Buffer,
        OclError,
    >)
        requires
            old(queue)@.wf(),
        ensures
            final(queue)@.wf(),
            r is Ok <==> match init {
                Some(s) => s@.len() == length,
                None => true,
            },
            r is Err ==> r == Err::<Buffer, OclError>(OclError::SizeMismatch) && final(queue)@ == old(queue)@,
            r matches Ok(b) ==> b.id == old(queue)@.bufs.len() && b.len == length && final(queue)@
                == (QueueModel {
                bufs: old(queue)@.bufs.push(
                    init_contents(
                        length,
                        match init {
                            Some(s) => Some(s@),
                            None => None,
                        },
                    ),
                ),
                ..old(queue)@
            }),
    {
        let contents = match init {
            Some(s) => {
                if s.len() != length {
                    return Err(OclError::SizeMismatch);
                }
                copy_slice(s)
            },
            None => zeros(length),
        };
        let ghost m = queue@;
        let id = queue.buffers.len();
        queue.buffers.push(contents);
        proof {
            let e = QueueModel { bufs: m.bufs.push(contents@), ..m };
            assert(queue@.bufs =~= e.bufs);
            assert(queue@ == e);
            assert forall|k: int| 0 <= k < e.commands.len() implies e.cmd_fits(
                #[trigger] e.commands[k],
            ) by {
                assert(m.cmd_fits(m.commands[k]));
            }
        }
        Ok(Buffer { id, len: length })
    }
}

impl CommandQueue {
    /// Enqueues a write of `data` into `buf` after the events of `wait`.
    /// `DeviceError` when the buffer or an event is unknown, `SizeMismatch`
    /// when `data` has another length than the buffer.
    pub fn enqueue_write(&mut self, buf: Buffer, data: &[u32], wait: &[Event]) -> (r: Result<
        Event,
        OclError,
    >)
        requires
            old(self)@.wf(),
        ensures
            final(self)@.wf(),
            r is Ok <==> old(self)@.valid_buffer(buf) && old(self)@.valid_waits(wait@)
                && data@.len() == buf.len,
            r == Err::<Event, OclError>(OclError::DeviceError) <==> !(old(self)@.valid_buffer(buf)
                && old(self)@.valid_waits(wait@)),
            r == Err::<Event, OclError>(OclError::SizeMismatch) <==> old(self)@.valid_buffer(buf)
                && old(self)@.valid_waits(wait@) && data@.len() != buf.len,
            r is Err ==> final(self)@ == old(self)@,
            r matches Ok(e) ==> e.id == old(self)@.commands.len() && final(self)@ == enqueue_model(
                old(self)@,
                CmdModel::Write { buffer: buf.id as int, data: data@ },
                wait_ids(wait@),
            ),
    {
        if !self.buffer_ok(buf) || !self.waits_ok(wait) {
            return Err(OclError::DeviceError);
        }
        if data.len() != buf.len {
            return Err(OclError::SizeMismatch);
        }
        let cmd = Command::Write { buffer: buf.id, data: copy_slice(data) };
        Ok(self.push_command(cmd, wait))
    }

    /// Enqueues a read of `buf` after the events of `wait`; what it reads is
    /// kept with its event. `DeviceError` when the buffer or an event is unknown.
    pub fn enqueue_read(&mut self, buf: Buffer, wait: &[Event]) -> (r: Result<Event, OclError>)
        requires
            old(self)@.wf(),
        ensures
            final(self)@.wf(),
            r is Ok <==> old(self)@.valid_buffer(buf) && old(self)@.valid_waits(wait@),
            r is Err ==> r == Err::<Event, OclError>(OclError::DeviceError) && final(self)@ == old(self)@,
            r matches Ok(e) ==> e.id == old(self)@.commands.len() && final(self)@ == enqueue_model(
                old(self)@,
                CmdModel::Read { buffer: buf.id as int },
                wait_ids(wait@),
            ),
    {
        if !self.buffer_ok(buf) || !self.waits_ok(wait) {
            return Err(OclError::DeviceError);
        }
        Ok(self.push_command(Command::Read { buffer: buf.id }, wait))
    }

    /// Enqueues a device-to-device copy of `src` into `dst` after the events
    /// of `wait`. `DeviceError` when a buffer or an event is unknown,
    /// `SizeMismatch` when the two lengths differ.
    pub fn enqueue_copy(&mut self, src: Buffer, dst: Buffer, wait: &[Event]) -> (r: Result<
        Event,
        OclError,
    >)
        requires
            old(self)@.wf(),
        ensures
            final(self)@.wf(),
            r is Ok <==> old(self)@.valid_buffer(src) && old(self)@.valid_buffer(dst) && old(self)@.valid_waits(wait@) && src.len == dst.len,
            r == Err::<Event, OclError>(OclError::DeviceError) <==> !(old(self)@.valid_buffer(src)
                && old(self)@.valid_buffer(dst) && old(self)@.valid_waits(wait@)),
            r == Err::<Event, OclError>(OclError::SizeMismatch) <==> old(self)@.valid_buffer(src)
                && old(self)@.valid_buffer(dst) && old(self)@.valid_waits(wait@) && src.len
                != dst.len,
            r is Err ==> final(self)@ == old(self)@,
            r matches Ok(e) ==> e.id == old(self)@.commands.len() && final(self)@ == enqueue_model(
                old(self)@,
                CmdModel::Copy { src: src.id as int, dst: dst.id as int },
                wait_ids(wait@),
            ),
    {
        if !self.buffer_ok(src) || !self.buffer_ok(dst) || !self.waits_ok(wait) {
            return Err(OclError::DeviceError);
        }
        if src.len != dst.len {
            return Err(OclError::SizeMismatch);
        }
        Ok(self.push_command(Command::Copy { src: src.id, dst: dst.id }, wait))
    }

    /// Enqueues a run of `kernel` after the events of `wait`, with its
    /// arguments as they are bound now. `InvalidGeometry` when no global size
    /// is set, `UnboundArgument` when an argument is missing, `DeviceError`
    /// when an event is unknown or the arguments do not fit the entry point
    /// and the buffers they name.
    pub fn enqueue_kernel(&mut self, kernel: &Kernel, wait: &[Event]) -> (r: Result<Event, OclError>)
        requires
            old(self)@.wf(),
            kernel.wf(),
        ensures
            final(self)@.wf(),
            r is Ok <==> kernel.global_view() is Some && all_bound(kernel.args_view()) && old(self)@.valid_waits(wait@) && old(self)@.resolve(
                kernel.entry_view(),
                unwrap_args(kernel.args_view()),
                kernel.global_view()->Some_0,
            ) is Some,
            r == Err::<Event, OclError>(OclError::InvalidGeometry) <==> kernel.global_view() is None,
            r == Err::<Event, OclError>(OclError::UnboundArgument) <==> kernel.global_view() is Some
                && !all_bound(kernel.args_view()),
            r == Err::<Event, OclError>(OclError::DeviceError) <==> kernel.global_view() is Some
                && all_bound(kernel.args_view()) && !(old(self)@.valid_waits(wait@) && old(self)@.resolve(
                kernel.entry_view(),
                unwrap_args(kernel.args_view()),
                kernel.global_view()->Some_0,
            ) is Some),
            r is Err ==> final(self)@ == old(self)@,
            r matches Ok(e) ==> e.id == old(self)@.commands.len() && final(self)@ == enqueue_model(
                old(self)@,
                old(self)@.resolve(
                    kernel.entry_view(),
                    unwrap_args(kernel.args_view()),
                    kernel.global_view()->Some_0,
                )->Some_0,
                wait_ids(wait@),
            ),
    {
        let global = match kernel.global_size() {
            Some(g) => g,
            None => {
                return Err(OclError::InvalidGeometry);
            },
        };
        let args = match kernel.bound_args() {
            Ok(a) => a,
            Err(e) => {
                return Err(e);
            },
        };
        assert(args@ =~= unwrap_args(kernel.args_view()));
        if !self.waits_ok(wait) {
            return Err(OclError::DeviceError);
        }
        match kernel.entry() {
            KernelEntry::AddScalar => {
                if args.len() != 3 {
                    return Err(OclError::DeviceError);
                }
                let src = match args[0] {
                    KernelArg::Buf(b) => b,
                    KernelArg::Scalar(_) => {
                        return Err(OclError::DeviceError);
                    },
                };
                let addend = match args[1] {
                    KernelArg::Scalar(v) => v,
                    KernelArg::Buf(_) => {
                        return Err(OclError::DeviceError);
                    },
                };
                let dst = match args[2] {
                    KernelArg::Buf(b) => b,
                    KernelArg::Scalar(_) => {
                        return Err(OclError::DeviceError);
                    },
                };
                if !self.buffer_ok(src) || !self.buffer_ok(dst) || global > src.len || global
                    > dst.len {
                    return Err(OclError::DeviceError);
                }
                let cmd = Command::AddScalar { src: src.id, addend, dst: dst.id, global };
                Ok(self.push_command(cmd, wait))
            },
        }
    }

    /// Registers `context` for the callback of `ev`. The callback fires once,
    /// when the event reaches a terminal status: at once when it already has.
    /// `DeviceError` for an unknown event, `EventError` when the event already
    /// has a callback.
    pub fn set_callback(&mut self, ev: Event, context: u64) -> (r: Result<(), OclError>)
        requires
            old(self)@.wf(),
        ensures
            final(self)@.wf(),
            r is Ok <==> ev.id < old(self)@.commands.len() && old(self)@.callbacks[ev.id as int] is None,
            r == Err::<(), OclError>(OclError::DeviceError) <==> ev.id >= old(self)@.commands.len(),
            r == Err::<(), OclError>(OclError::EventError) <==> ev.id < old(self)@.commands.len()
                && old(self)@.callbacks[ev.id as int] is Some,
            r is Err ==> final(self)@ == old(self)@,
            r is Ok ==> final(self)@ == (QueueModel {
                callbacks: old(self)@.callbacks.update(ev.id as int, Some(context)),
                deliveries: if old(self)@.status[ev.id as int].is_terminal() {
                    old(self)@.deliveries.push(
                        Delivery {
                            event: ev,
                            status: old(self)@.status[ev.id as int].code_spec(),
                            context,
                        },
                    )
                } else {
                    old(self)@.deliveries
                },
                ..old(self)@
            }),
    {
        if ev.id >= self.commands.len() {
            return Err(OclError::DeviceError);
        }
        if self.callbacks[ev.id].is_some() {
            return Err(OclError::EventError);
        }
        let ghost m = self@;
        let k = ev.id;
        self.callbacks.set(k, Some(context));
        let st = self.status[k];
        if st.is_done() {
            self.deliveries.push(Delivery { event: ev, status: st.code(), context });
        }
        proof {
            let e = self@;
            assert(e.callbacks =~= m.callbacks.update(k as int, Some(context)));
            assert forall|i: int| 0 <= i < m.deliveries.len() implies (#[trigger] m.deliveries[i]).event.id != k by {
                let d = m.deliveries[i];
                assert(m.callbacks[d.event.id as int] == Some(d.context));
            }
            assert forall|i: int| 0 <= i < e.deliveries.len() implies {
                let d = #[trigger] e.deliveries[i];
                &&& d.event.id < e.commands.len()
                &&& e.status[d.event.id as int].is_terminal()
                &&& e.callbacks[d.event.id as int] == Some(d.context)
                &&& d.status == e.status[d.event.id as int].code_spec()
            } by {
                if i < m.deliveries.len() {
                    assert(e.deliveries[i] == m.deliveries[i]);
                }
            }
            assert forall|kk: int|
                0 <= kk < e.commands.len() && (#[trigger] e.callbacks[kk]) is Some
                    && e.status[kk].is_terminal() implies exists|i: int|
                0 <= i < e.deliveries.len() && (#[trigger] e.deliveries[i]).event.id == kk by {
                if kk == k {
                    assert(e.deliveries[m.deliveries.len() as int].event.id == kk);
                } else {
                    lemma_delivery_kept(m, e.deliveries, kk);
                }
            }
        }
        Ok(())
    }
}

impl CommandQueue {
    /// The outcome of command `k` from the statuses of its wait-list.
    fn wait_outcome(&self, k: usize) -> (r: EventStatus)
        requires
            self@.wf(),
            k < self@.commands.len(),
        ensures
            r == outcome(self@.status, self@.waits[k as int], self@.faults[k as int]),
    {
        if self.faults[k] {
            return EventStatus::Error;
        }
        let w = &self.waits[k];
        let ghost ws = self@.waits[k as int];
        assert(ws.len() == w@.len());
        let mut j: usize = 0;
        while j < w.len()
            invariant
                self@.wf(),
                k < self@.commands.len(),
                ws == self@.waits[k as int],
                w@ == self.waits@[k as int]@,
                ws == w@.map_values(|e: usize| e as int),
                j <= w@.len(),
                forall|i: int| 0 <= i < j ==> self@.status[#[trigger] ws[i]] != EventStatus::Error,
            decreases w@.len() - j,
        {
            let e = w[j];
            assert(ws[j as int] == e as int);
            assert(0 <= ws[j as int] < k);
            if self.status[e] == EventStatus::Error {
                return EventStatus::Error;
            }
            j = j + 1;
        }
        EventStatus::Complete
    }

    /// Runs the next pending command.
    fn execute_next(&mut self)
        requires
            old(self)@.wf(),
            old(self)@.done < old(self)@.commands.len(),
        ensures
            final(self)@.wf(),
            final(self)@ == step(old(self)@),
    {
        let ghost m = self@;
        let k = self.done;
        assert(k < self.commands.len());
        let next = k + 1;
        let st = self.wait_outcome(k);
        let ok = st == EventStatus::Complete;
        assert(m.cmd_fits(m.commands[k as int]));
        let mut read: Vec<u32> = Vec::new();
        if ok {
            match &self.commands[k] {
                Command::Write { buffer, data } => {
                    let d = copy_slice(data.as_slice());
                    self.buffers.set(*buffer, d);
                },
                Command::Read { buffer } => {
                    read = copy_slice(self.buffers[*buffer].as_slice());
                },
                Command::AddScalar { src, addend, dst, global } => {
                    let v = add_scalar_vec(&self.buffers[*src], *addend, &self.buffers[*dst], *global);
                    self.buffers.set(*dst, v);
                },
                Command::Copy { src, dst } => {
                    let v = copy_slice(self.buffers[*src].as_slice());
                    self.buffers.set(*dst, v);
                },
            }
        }
        self.reads.set(k, read);
        self.status.set(k, st);
        let cb = self.callbacks[k];
        match cb {
            Some(ctx) => {
                self.deliveries.push(Delivery { event: Event { id: k }, status: st.code(), context: ctx });
            },
            None => {},
        }
        self.done = next;
        proof {
            let e = step(m);
            assert(self@.bufs =~= e.bufs);
            assert(self@.reads =~= e.reads);
            assert(self@.status =~= e.status);
            assert(self@.deliveries =~= e.deliveries);
            assert(self@.commands =~= e.commands);
            assert(self@.waits =~= e.waits);
            assert(self@.callbacks =~= e.callbacks);
        assert(self@.faults =~= e.faults);
            assert(self@ == e);
            lemma_step_wf(m);
        }
    }

    /// Runs every pending command in submission order and fires their
    /// callbacks. `EventError` when one of them ended in error.
    pub fn finish(&mut self) -> (r: Result<(), OclError>)
        requires
            old(self)@.wf(),
        ensures
            final(self)@.wf(),
            final(self)@ == run(old(self)@, (old(self)@.commands.len() - old(self)@.done) as nat),
            final(self)@.done == final(self)@.commands.len(),
            r is Ok <==> forall|k: int|
                old(self)@.done <= k < old(self)@.commands.len() ==> (#[trigger] final(self)@.status[k])
                    == EventStatus::Complete,
            r is Err ==> r == Err::<(), OclError>(OclError::EventError),
    {
        let ghost m = self@;
        let start = self.done;
        let mut failed = false;
        while self.done < self.commands.len()
            invariant
                self@.wf(),
                start as int == m.done,
                self@ == run(m, (self@.done - m.done) as nat),
                self@.commands.len() == m.commands.len(),
                m.done <= self@.done,
                failed <==> exists|k: int|
                    m.done <= k < self@.done && (#[trigger] self@.status[k]) != EventStatus::Complete,
            decreases self@.commands.len() - self@.done,
        {
            let ghost before = self@;
            let k = self.done;
            self.execute_next();
            proof {
                assert(self@.status == before.status.update(k as int, self@.status[k as int]));
                if !failed {
                    assert forall|j: int| m.done <= j < self@.done implies (#[trigger] self@.status[j])
                        == EventStatus::Complete || j == k by {
                        if j < k {
                            assert(before.status[j] == EventStatus::Complete);
                        }
                    }
                } else {
                    let w = choose|j: int| m.done <= j < before.done && (#[trigger] before.status[j]) != EventStatus::Complete;
                    assert(self@.status[w] != EventStatus::Complete);
                }
            }
            if self.status[k] != EventStatus::Complete {
                failed = true;
            }
        }
        if failed {
            Err(OclError::EventError)
        } else {
            Ok(())
        }
    }

    /// The status of `ev`; `None` for an unknown event.
    pub fn status(&self, ev: Event) -> (r: Option<EventStatus>)
        requires
            self@.wf(),
        ensures
            r == if ev.id < self@.commands.len() {
                Some(self@.status[ev.id as int])
            } else {
                None::<EventStatus>
            },
    {
        if ev.id < self.status.len() {
            Some(self.status[ev.id])
        } else {
            None
        }
    }

    /// What the read command of `ev` captured, once it has completed.
    pub fn read_result(&self, ev: Event) -> (r: Option<Vec<u32>>)
        requires
            self@.wf(),
        ensures
            r is Some <==> ev.id < self@.commands.len() && self@.commands[ev.id as int] is Read
                && self@.status[ev.id as int] == EventStatus::Complete,
            r matches Some(v) ==> v@ == self@.reads[ev.id as int],
    {
        if ev.id >= self.commands.len() {
            return None;
        }
        match &self.commands[ev.id] {
            Command::Read { .. } => {
                if self.status[ev.id] == EventStatus::Complete {
                    Some(copy_slice(self.reads[ev.id].as_slice()))
                } else {
                    None
                }
            },
            _ => None,
        }
    }

    /// The callbacks fired so far, in the order they fired.
    pub fn deliveries(&self) -> (r: Vec<Delivery>)
        ensures
            r@ == self@.deliveries,
    {
        let mut r: Vec<Delivery> = Vec::new();
        let mut i: usize = 0;
        while i < self.deliveries.len()
            invariant
                i <= self.deliveries@.len(),
                r@ == self.deliveries@.take(i as int),
            decreases self.deliveries@.len() - i,
        {
            r.push(self.deliveries[i]);
            i = i + 1;
            assert(r@ =~= self.deliveries@.take(i as int));
        }
        assert(self.deliveries@.take(i as int) =~= self.deliveries@);
        r
    }
}

/// Running the next command keeps the queue's invariant.
proof fn lemma_step_wf(m: QueueModel)
    requires
        m.wf(),
        m.done < m.commands.len(),
    ensures
        step(m).wf(),
{
    let e = step(m);
    let k = m.done;
    let n = m.commands.len();
    let c = m.commands[k];
    assert(m.cmd_fits(c));
    let ok = outcome(m.status, m.waits[k], m.faults[k]) == EventStatus::Complete;
    if ok {
        lemma_effect_lens(m, c);
    }
    assert forall|j: int| 0 <= j < n implies e.cmd_fits(#[trigger] e.commands[j]) by {
        assert(m.cmd_fits(m.commands[j]));
    }
    assert forall|i: int| 0 <= i < m.deliveries.len() implies (#[trigger] m.deliveries[i]).event.id != k by {
        assert(m.status[m.deliveries[i].event.id as int].is_terminal());
    }
    assert forall|i: int| 0 <= i < e.deliveries.len() implies {
        let d = #[trigger] e.deliveries[i];
        &&& d.event.id < e.commands.len()
        &&& e.status[d.event.id as int].is_terminal()
        &&& e.callbacks[d.event.id as int] == Some(d.context)
        &&& d.status == e.status[d.event.id as int].code_spec()
    } by {
        if i < m.deliveries.len() {
            assert(e.deliveries[i] == m.deliveries[i]);
        } else {
            assert(k as usize as int == k);
        }
    }
    assert forall|kk: int|
        0 <= kk < n && (#[trigger] e.callbacks[kk]) is Some && e.status[kk].is_terminal() implies exists|i: int|
        0 <= i < e.deliveries.len() && (#[trigger] e.deliveries[i]).event.id == kk by {
        if kk == k {
            assert(k as usize as int == k);
            assert(e.deliveries[m.deliveries.len() as int].event.id == kk);
        } else {
            lemma_delivery_kept(m, e.deliveries, kk);
        }
    }
}

/// A delivery once made stays: a terminal event with a callback keeps its
/// delivery in any sequence that extends the deliveries made so far.
proof fn lemma_delivery_kept(m: QueueModel, ds: Seq<Delivery>, kk: int)
    requires
        m.wf(),
        0 <= kk < m.commands.len(),
        m.callbacks[kk] is Some,
        m.status[kk].is_terminal(),
        m.deliveries.len() <= ds.len(),
        forall|i: int| 0 <= i < m.deliveries.len() ==> ds[i] == m.deliveries[i],
    ensures
        exists|i: int| 0 <= i < ds.len() && (#[trigger] ds[i]).event.id == kk,
{
    let i = choose|i: int| 0 <= i < m.deliveries.len() && (#[trigger] m.deliveries[i]).event.id == kk;
    assert(ds[i].event.id == kk);
}

/// Recording a command that fits, with a wait-list of existing events,
/// keeps the queue's invariant.
proof fn lemma_enqueue_wf(m: QueueModel, c: CmdModel, wait: Seq<int>)
    requires
        m.wf(),
        m.cmd_fits(c),
        m.commands.len() < usize::MAX,
        forall|j: int| 0 <= j < wait.len() ==> 0 <= #[trigger] wait[j] < m.commands.len(),
    ensures
        enqueue_model(m, c, wait).wf(),
{
    let e = enqueue_model(m, c, wait);
    let id = m.commands.len() as int;
    assert forall|k: int, j: int|
        0 <= k < e.commands.len() && 0 <= j < e.waits[k].len() implies 0 <= #[trigger] e.waits[k][j]
        < k by {
        if k == id {
            assert(e.waits[k] == wait);
        } else {
            assert(e.waits[k] == m.waits[k]);
        }
    }
    assert forall|k: int| 0 <= k < e.commands.len() implies e.cmd_fits(#[trigger] e.commands[k]) by {
        if k < id {
            assert(m.cmd_fits(m.commands[k]));
        }
    }
    assert forall|k: int|
        0 <= k < e.commands.len() && (#[trigger] e.callbacks[k]) is Some
            && e.status[k].is_terminal() implies exists|i: int|
        0 <= i < e.deliveries.len() && (#[trigger] e.deliveries[i]).event.id == k by {
        lemma_delivery_kept(m, e.deliveries, k);
    }
}

/// Running `j` pending commands keeps the invariant, the commands, their
/// wait-lists and callbacks, and the number and lengths of the buffers.
proof fn lemma_run_frame(m: QueueModel, j: nat)
    requires
        m.wf(),
        m.done + j <= m.commands.len(),
    ensures
        run(m, j).wf(),
        run(m, j).done == m.done + j,
        run(m, j).commands == m.commands,
        run(m, j).waits == m.waits,
        run(m, j).callbacks == m.callbacks,
        run(m, j).faults == m.faults,
        run(m, j).bufs.len() == m.bufs.len(),
        forall|b: int| 0 <= b < m.bufs.len() ==> (#[trigger] run(m, j).bufs[b]).len() == m.bufs[b].len(),
    decreases j,
{
    if j > 0 {
        let p = run(m, (j - 1) as nat);
        lemma_run_frame(m, (j - 1) as nat);
        lemma_step_wf(p);
        assert(p.cmd_fits(p.commands[p.done]));
        if outcome(p.status, p.waits[p.done], p.faults[p.done]) == EventStatus::Complete {
            lemma_effect_lens(p, p.commands[p.done]);
        }
    }
}

/// A write followed by a read of the same buffer, both without a wait-list,
/// reads back exactly what was written, whatever ran before them.
pub proof fn lemma_write_read_round_trip(m: QueueModel, b: Buffer, data: Seq<u32>)
    requires
        m.wf(),
        m.valid_buffer(b),
        data.len() == b.len,
        m.commands.len() + 2 <= usize::MAX,
    ensures
        ({
            let n = m.commands.len() as int;
            let w = enqueue_model(m, CmdModel::Write { buffer: b.id as int, data }, Seq::empty());
            let r = enqueue_model(w, CmdModel::Read { buffer: b.id as int }, Seq::empty());
            let fin = run(r, (n + 2 - m.done) as nat);
            &&& fin.status[n] == EventStatus::Complete
            &&& fin.status[n + 1] == EventStatus::Complete
            &&& fin.reads[n + 1] == data
            &&& fin.bufs[b.id as int] == data
        }),
{
    let n = m.commands.len() as int;
    let w = enqueue_model(m, CmdModel::Write { buffer: b.id as int, data }, Seq::empty());
    let r = enqueue_model(w, CmdModel::Read { buffer: b.id as int }, Seq::empty());
    lemma_enqueue_wf(m, CmdModel::Write { buffer: b.id as int, data }, Seq::empty());
    lemma_enqueue_wf(w, CmdModel::Read { buffer: b.id as int }, Seq::empty());
    let j = (n - m.done) as nat;
    lemma_run_frame(r, j);
    lemma_run_frame(r, j + 1);
    let p = run(r, j);
    let p1 = run(r, j + 1);
    assert(run(r, (j + 1) as nat) == step(p));
    assert(run(r, (n + 2 - m.done) as nat) == step(p1));
    assert(p.done == n);
    assert(p.commands[n] == CmdModel::Write { buffer: b.id as int, data });
    assert(p.waits[n] == Seq::<int>::empty());
    assert(p1.bufs[b.id as int] == data);
    assert(p1.commands[n + 1] == CmdModel::Read { buffer: b.id as int });
    assert(p1.waits[n + 1] == Seq::<int>::empty());
}

/// Commands on the queue run in the order they were enqueued: when the next
/// two commands both complete, the second runs on the buffers that the first
/// left, and a read in second place sees the first one's writes.
pub proof fn lemma_in_order(m: QueueModel)
    requires
        m.wf(),
        m.done + 2 <= m.commands.len(),
    ensures
        ({
            let a = m.done;
            let s1 = step(m);
            let s2 = step(s1);
            &&& s1.status[a] == EventStatus::Complete ==> s1.bufs == effect(m.bufs, m.commands[a])
            &&& s2.status[a + 1] == EventStatus::Complete ==> s2.bufs == effect(
                s1.bufs,
                m.commands[a + 1],
            )
            &&& (s2.status[a] == EventStatus::Complete && s2.status[a + 1] == EventStatus::Complete
                && m.commands[a + 1] is Read) ==> s2.reads[a + 1] == effect(
                m.bufs,
                m.commands[a],
            )[m.commands[a + 1]->Read_buffer]
        }),
{
    lemma_step_wf(m);
}

/// A command runs only once every event of its wait-list has completed; if
/// one of them ended in error, or the command itself was reported failed, the
/// command ends in error and leaves the buffers as they were.
pub proof fn lemma_wait_list(m: QueueModel)
    requires
        m.wf(),
        m.done < m.commands.len(),
    ensures
        ({
            let k = m.done;
            let w = m.waits[k];
            let s = step(m);
            &&& s.status[k] == EventStatus::Complete ==> forall|j: int|
                0 <= j < w.len() ==> m.status[#[trigger] w[j]] == EventStatus::Complete
            &&& s.status[k] == EventStatus::Complete ==> !m.faults[k]
            &&& (m.faults[k] || exists|j: int|
                0 <= j < w.len() && m.status[#[trigger] w[j]] == EventStatus::Error)
                ==> s.status[k] == EventStatus::Error && s.bufs == m.bufs
        }),
{
    let k = m.done;
    let w = m.waits[k];
    let s = step(m);
    if s.status[k] == EventStatus::Complete {
        assert forall|j: int| 0 <= j < w.len() implies m.status[#[trigger] w[j]]
            == EventStatus::Complete by {
            assert(0 <= w[j] < k);
            assert(m.status[w[j]].is_terminal());
        }
    }
}

/// A callback fires at most once: each event has at most one delivery; it has
/// one exactly when it has a callback and a terminal status, and that delivery
/// carries the terminal status.
pub proof fn lemma_callback_once(m: QueueModel, k: int)
    requires
        m.wf(),
        0 <= k < m.commands.len(),
    ensures
        forall|i: int, j: int|
            0 <= i < m.deliveries.len() && 0 <= j < m.deliveries.len() && (#[trigger] m.deliveries[i]).event.id
                == k && (#[trigger] m.deliveries[j]).event.id == k ==> i == j,
        (exists|i: int| 0 <= i < m.deliveries.len() && (#[trigger] m.deliveries[i]).event.id == k)
            <==> (m.callbacks[k] is Some && m.status[k].is_terminal()),
        forall|i: int|
            0 <= i < m.deliveries.len() && (#[trigger] m.deliveries[i]).event.id == k ==> m.status[k].is_terminal()
                && m.deliveries[i].status == m.status[k].code_spec(),
{
    assert forall|i: int, j: int|
        0 <= i < m.deliveries.len() && 0 <= j < m.deliveries.len() && (#[trigger] m.deliveries[i]).event.id
            == k && (#[trigger] m.deliveries[j]).event.id == k implies i == j by {
        if i < j {
            assert(m.deliveries[i].event != m.deliveries[j].event);
        } else if j < i {
            assert(m.deliveries[j].event != m.deliveries[i].event);
        }
    }
}

impl CommandQueue {
    /// Reads `buf` into `dest`, blocking until every command before the read
    /// has run. `DeviceError` for an unknown buffer, `SizeMismatch` when `dest`
    /// has another length; otherwise `dest` gets the buffer's contents as the
    /// earlier commands left them, and `EventError` reports that one of the
    /// commands run ended in error.
    pub fn read(&mut self, buf: Buffer, dest: &mut Vec<u32>) -> (r: Result<(), OclError>)
        requires
            old(self)@.wf(),
            old(self)@.commands.len() < usize::MAX,
        ensures
            final(self)@.wf(),
            r == Err::<(), OclError>(OclError::DeviceError) <==> !old(self)@.valid_buffer(buf),
            r == Err::<(), OclError>(OclError::SizeMismatch) <==> old(self)@.valid_buffer(buf)
                && old(dest)@.len() != buf.len,
            (r == Err::<(), OclError>(OclError::DeviceError) || r == Err::<(), OclError>(
                OclError::SizeMismatch,
            )) ==> final(self)@ == old(self)@ && final(dest)@ == old(dest)@,
            old(self)@.valid_buffer(buf) && old(dest)@.len() == buf.len ==> {
                let q = enqueue_model(
                    old(self)@,
                    CmdModel::Read { buffer: buf.id as int },
                    Seq::empty(),
                );
                let before = run(q, (old(self)@.commands.len() - old(self)@.done) as nat);
                &&& final(self)@ == step(before)
                &&& final(dest)@ == before.bufs[buf.id as int]
                &&& (r is Ok || r == Err::<(), OclError>(OclError::EventError))
                &&& r is Ok <==> forall|k: int|
                    old(self)@.done <= k <= old(self)@.commands.len() ==> (#[trigger] final(self)@.status[k]) == EventStatus::Complete
            },
    {
        if !self.buffer_ok(buf) {
            return Err(OclError::DeviceError);
        }
        if dest.len() != buf.len {
            return Err(OclError::SizeMismatch);
        }
        let ghost m = self@;
        let ev = match self.enqueue_read(buf, &[]) {
            Ok(e) => e,
            Err(e) => {
                return Err(e);
            },
        };
        let ghost q = self@;
        assert(wait_ids(Seq::<Event>::empty()) =~= Seq::<int>::empty());
        let r = self.finish();
        proof {
            let j = (m.commands.len() - m.done) as nat;
            lemma_run_frame(q, j);
            let before = run(q, j);
            assert(run(q, (j + 1) as nat) == step(before));
            assert(before.done == m.commands.len());
            assert(before.waits[before.done] == Seq::<int>::empty());
            assert(before.commands[before.done] == CmdModel::Read { buffer: buf.id as int });
        }
        match self.read_result(ev) {
            Some(v) => {
                *dest = v;
            },
            None => {},
        }
        r
    }

    /// Writes `data` into `buf`, blocking until it and every command before
    /// it have run. `DeviceError` for an unknown buffer, `SizeMismatch` when
    /// `data` has another length; `EventError` reports that one of the
    /// commands run ended in error.
    pub fn write(&mut self, buf: Buffer, data: &[u32]) -> (r: Result<(), OclError>)
        requires
            old(self)@.wf(),
        ensures
            final(self)@.wf(),
            r == Err::<(), OclError>(OclError::DeviceError) <==> !old(self)@.valid_buffer(buf),
            r == Err::<(), OclError>(OclError::SizeMismatch) <==> old(self)@.valid_buffer(buf)
                && data@.len() != buf.len,
            (r == Err::<(), OclError>(OclError::DeviceError) || r == Err::<(), OclError>(
                OclError::SizeMismatch,
            )) ==> final(self)@ == old(self)@,
            old(self)@.valid_buffer(buf) && data@.len() == buf.len ==> {
                let q = enqueue_model(
                    old(self)@,
                    CmdModel::Write { buffer: buf.id as int, data: data@ },
                    Seq::empty(),
                );
                &&& final(self)@ == run(q, (q.commands.len() - q.done) as nat)
                &&& (r is Ok || r == Err::<(), OclError>(OclError::EventError))
                &&& r is Ok <==> forall|k: int|
                    old(self)@.done <= k <= old(self)@.commands.len() ==> (#[trigger] final(self)@.status[k]) == EventStatus::Complete
            },
    {
        let none: [Event; 0] = [];
        assert(none@ =~= Seq::<Event>::empty());
        assert(wait_ids(none@) =~= Seq::<int>::empty());
        match self.enqueue_write(buf, data, &none) {
            Ok(_) => self.finish(),
            Err(e) => Err(e),
        }
    }
}

/// Statuses after dispatch: every pending queued event is submitted.
pub open spec fn dispatched(status: Seq<EventStatus>, done: int) -> Seq<EventStatus> {
    Seq::new(
        status.len(),
        |k: int|
            if k >= done && status[k] == EventStatus::Queued {
                EventStatus::Submitted
            } else {
                status[k]
            },
    )
}

impl CommandQueue {
    /// Dispatches the pending commands without waiting for them: each queued
    /// event becomes submitted. Nothing runs.
    pub fn flush(&mut self)
        requires
            old(self)@.wf(),
        ensures
            final(self)@.wf(),
            final(self)@ == (QueueModel {
                status: dispatched(old(self)@.status, old(self)@.done),
                ..old(self)@
            }),
    {
        let ghost m = self@;
        let n = self.status.len();
        let mut k: usize = self.done;
        assert(self@.status =~= dispatched(m.status, m.done).take(k as int) + m.status.skip(k as int));
        while k < n
            invariant
                m.wf(),
                n == m.status.len(),
                m.done <= k <= n,
                self@ == (QueueModel {
                    status: dispatched(m.status, m.done).take(k as int) + m.status.skip(k as int),
                    ..m
                }),
            decreases n - k,
        {
            if self.status[k] == EventStatus::Queued {
                self.status.set(k, EventStatus::Submitted);
            }
            k = k + 1;
            assert(self@.status =~= dispatched(m.status, m.done).take(k as int) + m.status.skip(
                k as int,
            ));
        }
        assert(self@.status =~= dispatched(m.status, m.done));
        proof {
            let e = self@;
            assert forall|j: int|
                0 <= j < e.commands.len() && (#[trigger] e.callbacks[j]) is Some
                    && e.status[j].is_terminal() implies exists|i: int|
                0 <= i < e.deliveries.len() && (#[trigger] e.deliveries[i]).event.id == j by {
                assert(m.status[j].is_terminal());
                lemma_delivery_kept(m, e.deliveries, j);
            }
        }
    }
}

/// A kernel's arguments are captured when it is enqueued: the command
/// recorded for it stays the same however many commands run afterwards, so
/// rebinding the kernel later cannot reach it.
pub proof fn lemma_enqueued_command_kept(m: QueueModel, c: CmdModel, wait: Seq<int>, j: nat)
    requires
        m.wf(),
        m.cmd_fits(c),
        m.commands.len() < usize::MAX,
        forall|i: int| 0 <= i < wait.len() ==> 0 <= #[trigger] wait[i] < m.commands.len(),
        m.done + j <= m.commands.len() + 1,
    ensures
        run(enqueue_model(m, c, wait), j).commands[m.commands.len() as int] == c,
        run(enqueue_model(m, c, wait), j).waits[m.commands.len() as int] == wait,
{
    lemma_enqueue_wf(m, c, wait);
    lemma_run_frame(enqueue_model(m, c, wait), j);
}

impl CommandQueue {
    /// Records that the device failed the pending command of `ev`: when it
    /// runs it ends in error, changes no buffer, and fails the commands that
    /// wait on it. `DeviceError` for an unknown event, `EventError` for one
    /// whose command has already run.
    pub fn mark_failed(&mut self, ev: Event) -> (r: Result<(), OclError>)
        requires
            old(self)@.wf(),
        ensures
            final(self)@.wf(),
            r is Ok <==> old(self)@.done <= ev.id < old(self)@.commands.len(),
            r == Err::<(), OclError>(OclError::DeviceError) <==> ev.id >= old(self)@.commands.len(),
            r == Err::<(), OclError>(OclError::EventError) <==> ev.id < old(self)@.done,
            r is Err ==> final(self)@ == old(self)@,
            r is Ok ==> final(self)@ == (QueueModel {
                faults: old(self)@.faults.update(ev.id as int, true),
                ..old(self)@
            }),
    {
        if ev.id >= self.commands.len() {
            return Err(OclError::DeviceError);
        }
        if ev.id < self.done {
            return Err(OclError::EventError);
        }
        let ghost m = self@;
        self.faults.set(ev.id, true);
        assert(self@.faults =~= m.faults.update(ev.id as int, true));
        assert(self@ == (QueueModel { faults: m.faults.update(ev.id as int, true), ..m }));
        Ok(())
    }
}

} // verus!
