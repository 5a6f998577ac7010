//! The exception and hardware-interrupt layer.
//!
//! Three pieces live here.  The *vector table* model fixes which of the 256
//! CPU vectors get handlers and which stack each handler runs on — in
//! particular that the double fault runs on its own dedicated stack.  The
//! *chained interrupt controller* model tracks, per vector, how many
//! end-of-interrupt acknowledgements have been sent, so that the "each
//! handler acknowledges exactly its own line, exactly once" discipline is a
//! proved contract rather than a convention.  The *handlers* are the
//! decision part of the kernel's interrupt routines: the unverified shell
//! reads the hardware port and performs the port writes, and calls in here
//! for everything else, including the scan-code decoding done by the
//! `pc_keyboard` crate.

use vstd::prelude::*;
use crate::gdt::{DOUBLE_FAULT_IST_INDEX, IST_ENTRY_COUNT};
use pc_keyboard::layouts::Us104Key;
use pc_keyboard::{DecodedKey, HandleControl, Keyboard, KeyCode, KeyEvent, ScancodeSet1};

verus! {

/// First vector of the primary controller: 32, right past the 32 vectors
/// reserved for CPU exceptions.
pub const PIC_1_OFFSET: u8 = 32;

/// First vector of the secondary controller, 8 lines later.
pub const PIC_2_OFFSET: u8 = PIC_1_OFFSET + 8;

/// Number of hardware lines behind each of the two controllers.
pub const PIC_LINE_COUNT: u8 = 8;

/// Vectors of the hardware interrupts this kernel services.
#[derive(Debug, Clone, Copy, PartialEq, Eq, Structural)]
pub enum InterruptIndex {
    Timer,
    Keyboard,
    RTC,
}

impl InterruptIndex {
    /// The vector number the line is remapped to.
    pub open spec fn spec_u8(self) -> u8 {
        match self {
            InterruptIndex::Timer => PIC_1_OFFSET,
            InterruptIndex::Keyboard => (PIC_1_OFFSET + 1) as u8,
            InterruptIndex::RTC => PIC_2_OFFSET,
        }
    }

    pub fn as_u8(self) -> (v: u8)
        ensures
            v == self.spec_u8(),
    {
        match self {
            InterruptIndex::Timer => PIC_1_OFFSET,
            InterruptIndex::Keyboard => PIC_1_OFFSET + 1,
            InterruptIndex::RTC => PIC_2_OFFSET,
        }
    }

    pub fn as_usize(self) -> (v: usize)
        ensures
            v == self.spec_u8() as usize,
    {
        self.as_u8() as usize
    }
}

/// Total number of CPU vectors.
pub const VECTOR_COUNT: usize = 256;

/// Model of the two cascaded 8-line interrupt controllers.
///
/// The offsets say where the 8 lines of each controller surface among the
/// CPU vectors; `acks` counts, per vector, the end-of-interrupt
/// acknowledgements sent so far.  The real controller is a pair of port
/// writes away; the unverified shell mirrors every state change made here
/// onto the hardware.
pub struct InterruptController {
    offset_primary: u8,
    offset_secondary: u8,
    initialized: bool,
    acks: Vec<u64>,
}

impl InterruptController {
    /// Vector offset of the primary controller.
    pub closed spec fn primary(&self) -> u8 {
        self.offset_primary
    }

    /// Vector offset of the secondary controller.
    pub closed spec fn secondary(&self) -> u8 {
        self.offset_secondary
    }

    /// Whether the initialization sequence has run.
    pub closed spec fn is_initialized(&self) -> bool {
        self.initialized
    }

    /// Acknowledgements sent so far, per vector.
    pub closed spec fn ack_counts(&self) -> Seq<u64> {
        self.acks@
    }

    /// Well-formed controller state: one counter per vector, and offsets
    /// that collide neither with the 32 reserved exception vectors nor with
    /// each other.
    pub open spec fn wf(&self) -> bool {
        &&& self.ack_counts().len() == VECTOR_COUNT
        &&& 32 <= self.primary()
        &&& self.primary() + PIC_LINE_COUNT <= 256
        &&& 32 <= self.secondary()
        &&& self.secondary() + PIC_LINE_COUNT <= 256
        &&& (self.primary() + PIC_LINE_COUNT <= self.secondary() || self.secondary()
            + PIC_LINE_COUNT <= self.primary())
    }

    /// Whether `vector` is one of the 16 lines this pair serves.
    pub open spec fn spec_handles(&self, vector: u8) -> bool {
        ||| self.primary() <= vector < self.primary() + PIC_LINE_COUNT
        ||| self.secondary() <= vector < self.secondary() + PIC_LINE_COUNT
    }

    /// Create a new controller pair remapped to the given vector offsets.
    /// The offsets must avoid the 32 reserved exception vectors and each
    /// other — validated here, once, instead of trusted at every use.
    pub fn new(offset_primary: u8, offset_secondary: u8) -> (c: InterruptController)
        requires
            32 <= offset_primary,
            offset_primary as int + PIC_LINE_COUNT as int <= 256,
            32 <= offset_secondary,
            offset_secondary as int + PIC_LINE_COUNT as int <= 256,
            offset_primary as int + PIC_LINE_COUNT as int <= offset_secondary as int
                || offset_secondary as int + PIC_LINE_COUNT as int <= offset_primary as int,
        ensures
            c.wf(),
            !c.is_initialized(),
            c.primary() == offset_primary,
            c.secondary() == offset_secondary,
            forall|v: int| 0 <= v < VECTOR_COUNT ==> c.ack_counts()[v] == 0,
    {
        let mut acks: Vec<u64> = Vec::new();
        let mut i: usize = 0;
        while i < VECTOR_COUNT
            invariant
                i <= VECTOR_COUNT,
                acks@.len() == i,
                forall|v: int| 0 <= v < i ==> acks@[v] == 0,
            decreases VECTOR_COUNT - i,
        {
            acks.push(0);
            i = i + 1;
        }
        InterruptController { offset_primary, offset_secondary, initialized: false, acks }
    }

    /// Run the documented initialization sequence: once, after the vector
    /// table is loaded and before interrupts are enabled.  The shell sends
    /// the actual command and offset bytes to the two port pairs.
    pub fn initialize(&mut self)
        requires
            old(self).wf(),
            !old(self).is_initialized(),
        ensures
            final(self).wf(),
            final(self).is_initialized(),
            final(self).primary() == old(self).primary(),
            final(self).secondary() == old(self).secondary(),
            final(self).ack_counts() == old(self).ack_counts(),
    {
        self.initialized = true;
    }

    /// Whether the controller pair serves the given vector.
    pub fn handles_interrupt(&self, vector: u8) -> (r: bool)
        ensures
            r == self.spec_handles(vector),
    {
        (self.offset_primary <= vector && (vector as u16) < self.offset_primary as u16
            + PIC_LINE_COUNT as u16) || (self.offset_secondary <= vector && (vector as u16)
            < self.offset_secondary as u16 + PIC_LINE_COUNT as u16)
    }

    /// How many acknowledgements have gone to `vector` so far.
    pub fn ack_count(&self, vector: u8) -> (n: u64)
        requires
            self.wf(),
        ensures
            n == self.ack_counts()[vector as int],
    {
        self.acks[vector as usize]
    }

    /// Send the end-of-interrupt acknowledgement for `vector`: exactly that
    /// vector's count rises, by exactly one.  Skipping this call after
    /// servicing an interrupt stalls the controller for lines at or below
    /// the unacknowledged one; acknowledging a wrong line desynchronizes it.
    pub fn end_of_interrupt(&mut self, vector: u8)
        requires
            old(self).wf(),
            old(self).is_initialized(),
            old(self).spec_handles(vector),
            old(self).ack_counts()[vector as int] < u64::MAX,
        ensures
            final(self).wf(),
            final(self).is_initialized(),
            final(self).primary() == old(self).primary(),
            final(self).secondary() == old(self).secondary(),
            final(self).ack_counts() == spec_acknowledge(old(self).ack_counts(), vector as int),
    {
        let count = self.acks[vector as usize];
        self.acks.set(vector as usize, count + 1);
    }
}

/// One acknowledgement on `vector`: that counter rises by one, every other
/// counter keeps its value.
pub open spec fn spec_acknowledge(counts: Seq<u64>, vector: int) -> Seq<u64> {
    counts.update(vector, (counts[vector] + 1) as u64)
}

/// The counters after a whole sequence of serviced interrupts.
pub open spec fn counts_after(counts: Seq<u64>, events: Seq<InterruptIndex>) -> Seq<u64>
    decreases events.len(),
{
    if events.len() == 0 {
        counts
    } else {
        counts_after(spec_acknowledge(counts, events[0].spec_u8() as int), events.skip(1))
    }
}

/// How many of the events hit the given vector.
pub open spec fn occurrences(events: Seq<InterruptIndex>, vector: int) -> int
    decreases events.len(),
{
    if events.len() == 0 {
        0
    } else {
        (if events[0].spec_u8() == vector {
            1int
        } else {
            0int
        }) + occurrences(events.skip(1), vector)
    }
}

proof fn lemma_occurrences_nonneg(events: Seq<InterruptIndex>, vector: int)
    ensures
        occurrences(events, vector) >= 0,
    decreases events.len(),
{
    if events.len() > 0 {
        lemma_occurrences_nonneg(events.skip(1), vector);
    }
}

/// Law (acknowledgement accounting): servicing a sequence of interrupts
/// raises each vector's acknowledgement counter by exactly the number of
/// events on that vector — in particular, after N timer interrupts, N
/// acknowledgements went to the timer line and none to any other.
pub proof fn lemma_acknowledgement_counts(
    counts: Seq<u64>,
    events: Seq<InterruptIndex>,
    vector: int,
)
    requires
        counts.len() == VECTOR_COUNT,
        0 <= vector < VECTOR_COUNT,
        forall|v: int|
            0 <= v < VECTOR_COUNT ==> counts[v] + occurrences(events, v) <= u64::MAX,
    ensures
        counts_after(counts, events).len() == VECTOR_COUNT,
        counts_after(counts, events)[vector] == counts[vector] + occurrences(events, vector),
    decreases events.len(),
{
    if events.len() > 0 {
        let e0 = events[0].spec_u8() as int;
        lemma_occurrences_nonneg(events.skip(1), e0);
        assert(occurrences(events, e0) >= 1);
        let counts1 = spec_acknowledge(counts, e0);
        assert forall|v: int|
            0 <= v < VECTOR_COUNT implies counts1[v] + occurrences(events.skip(1), v)
            <= u64::MAX by {
            assert(counts[v] + occurrences(events, v) <= u64::MAX);
            lemma_occurrences_nonneg(events.skip(1), v);
        }
        lemma_acknowledgement_counts(counts1, events.skip(1), vector);
    }
}

/// Vector of the breakpoint exception.
pub const BREAKPOINT_VECTOR: usize = 3;

/// Vector of the arithmetic-overflow exception.
pub const OVERFLOW_VECTOR: usize = 4;

/// Vector of the double-fault exception.
pub const DOUBLE_FAULT_VECTOR: usize = 8;

/// Vector of the page-fault exception.
pub const PAGE_FAULT_VECTOR: usize = 14;

/// The handlers this kernel installs.
#[derive(Debug, Clone, Copy, PartialEq, Eq, Structural)]
pub enum HandlerKind {
    /// Reports the interrupted machine state and resumes; diagnostic only.
    Breakpoint,
    /// Reports and resumes.
    Overflow,
    /// Reports the faulting address and flags, then halts: there is no
    /// fault-recovery path in this kernel.
    PageFault,
    /// Reports and halts; never returns, since the CPU state can no longer
    /// be trusted on this path.
    DoubleFault,
    /// Acknowledges the timer line; no other observable effect here.
    Timer,
    /// Decodes one scan-code byte and acknowledges the keyboard line.
    Keyboard,
}

impl HandlerKind {
    /// Whether the handler returns to the interrupted context, or halts the
    /// machine in a low-power wait forever.
    pub open spec fn spec_resumes(self) -> bool {
        match self {
            HandlerKind::Breakpoint => true,
            HandlerKind::Overflow => true,
            HandlerKind::PageFault => false,
            HandlerKind::DoubleFault => false,
            HandlerKind::Timer => true,
            HandlerKind::Keyboard => true,
        }
    }

    pub fn resumes(self) -> (r: bool)
        ensures
            r == self.spec_resumes(),
    {
        match self {
            HandlerKind::Breakpoint => true,
            HandlerKind::Overflow => true,
            HandlerKind::PageFault => false,
            HandlerKind::DoubleFault => false,
            HandlerKind::Timer => true,
            HandlerKind::Keyboard => true,
        }
    }
}

/// One populated vector: the handler and, if set, the interrupt-stack-table
/// slot whose dedicated stack the CPU switches to before running it.
#[derive(Debug, Clone, Copy, PartialEq, Eq)]
pub struct VectorEntry {
    pub handler: HandlerKind,
    pub stack_index: Option<u16>,
}

/// The vector table this kernel installs.
pub open spec fn spec_kernel_vectors() -> Map<int, VectorEntry> {
    map![
        BREAKPOINT_VECTOR as int => VectorEntry { handler: HandlerKind::Breakpoint, stack_index: None },
        OVERFLOW_VECTOR as int => VectorEntry { handler: HandlerKind::Overflow, stack_index: None },
        PAGE_FAULT_VECTOR as int => VectorEntry { handler: HandlerKind::PageFault, stack_index: None },
        DOUBLE_FAULT_VECTOR as int => VectorEntry {
            handler: HandlerKind::DoubleFault,
            stack_index: Some(DOUBLE_FAULT_IST_INDEX),
        },
        InterruptIndex::Timer.spec_u8() as int => VectorEntry { handler: HandlerKind::Timer, stack_index: None },
        InterruptIndex::Keyboard.spec_u8() as int => VectorEntry {
            handler: HandlerKind::Keyboard,
            stack_index: None,
        },
    ]
}

/// A table of all 256 vectors matches the kernel's intended configuration
/// when the six chosen vectors hold their handlers and every other vector is
/// unpopulated, so a stray interrupt faults predictably instead of running
/// garbage.
pub open spec fn vector_table_wf(t: Seq<Option<VectorEntry>>) -> bool {
    &&& t.len() == VECTOR_COUNT
    &&& forall|v: int|
        0 <= v < VECTOR_COUNT && spec_kernel_vectors().contains_key(v) ==> t[v] == Some(
            spec_kernel_vectors()[v],
        )
    &&& forall|v: int|
        0 <= v < VECTOR_COUNT && !spec_kernel_vectors().contains_key(v) ==> t[v] is None
}

/// Model of the interrupt descriptor table: 256 vectors, a handful of them
/// populated.
pub struct VectorTable {
    entries: Vec<Option<VectorEntry>>,
}

impl View for VectorTable {
    type V = Seq<Option<VectorEntry>>;

    closed spec fn view(&self) -> Seq<Option<VectorEntry>> {
        self.entries@
    }
}

impl VectorTable {
    /// Build the kernel's vector table: breakpoint, overflow and page fault
    /// on the default stack, the double fault on its dedicated
    /// interrupt-stack-table slot, and the two remapped hardware lines.
    pub fn new() -> (t: VectorTable)
        ensures
            vector_table_wf(t@),
    {
        let mut entries: Vec<Option<VectorEntry>> = Vec::new();
        let mut i: usize = 0;
        while i < VECTOR_COUNT
            invariant
                i <= VECTOR_COUNT,
                entries@.len() == i,
                forall|v: int| 0 <= v < i ==> entries@[v] is None,
            decreases VECTOR_COUNT - i,
        {
            entries.push(None);
            i = i + 1;
        }
        entries.set(
            BREAKPOINT_VECTOR,
            Some(VectorEntry { handler: HandlerKind::Breakpoint, stack_index: None }),
        );
        entries.set(
            OVERFLOW_VECTOR,
            Some(VectorEntry { handler: HandlerKind::Overflow, stack_index: None }),
        );
        entries.set(
            PAGE_FAULT_VECTOR,
            Some(VectorEntry { handler: HandlerKind::PageFault, stack_index: None }),
        );
        // the stack index must be a valid slot, or the double fault would
        // switch to a garbage stack — the very failure it exists to survive
        entries.set(
            DOUBLE_FAULT_VECTOR,
            Some(
                VectorEntry {
                    handler: HandlerKind::DoubleFault,
                    stack_index: Some(DOUBLE_FAULT_IST_INDEX),
                },
            ),
        );
        let timer = InterruptIndex::Timer.as_usize();
        entries.set(timer, Some(VectorEntry { handler: HandlerKind::Timer, stack_index: None }));
        let keyboard = InterruptIndex::Keyboard.as_usize();
        entries.set(
            keyboard,
            Some(VectorEntry { handler: HandlerKind::Keyboard, stack_index: None }),
        );
        let t = VectorTable { entries };
        proof {
            vstd::map::check_argument_is_map(spec_kernel_vectors());
        }
        t
    }

    /// Look one vector up.
    pub fn entry(&self, vector: usize) -> (e: Option<VectorEntry>)
        requires
            vector < self@.len(),
        ensures
            e == self@[vector as int],
    {
        self.entries[vector]
    }
}

/// Law (double-fault survivability, the static part): in the kernel's
/// configuration the double-fault vector is populated, runs on a dedicated
/// interrupt-stack-table slot, that slot is one the hardware provides, the
/// task state segment fills exactly that slot with the top of the dedicated
/// stack, and the handler never returns.  So a fault while the normal stack
/// is exhausted still finds valid stack memory to run the report on.
pub proof fn lemma_double_fault_stack_wired(
    table: Seq<Option<VectorEntry>>,
    ist: Seq<Option<usize>>,
    stack_top: usize,
)
    requires
        vector_table_wf(table),
        ist.len() == IST_ENTRY_COUNT,
        ist[DOUBLE_FAULT_IST_INDEX as int] == Some(stack_top),
        stack_top > 0,
    ensures
        table[DOUBLE_FAULT_VECTOR as int] is Some,
        table[DOUBLE_FAULT_VECTOR as int]->Some_0.stack_index == Some(DOUBLE_FAULT_IST_INDEX),
        !table[DOUBLE_FAULT_VECTOR as int]->Some_0.handler.spec_resumes(),
        (DOUBLE_FAULT_IST_INDEX as int) < ist.len(),
        ist[DOUBLE_FAULT_IST_INDEX as int]->Some_0 != 0,
{
    assert(spec_kernel_vectors().contains_key(DOUBLE_FAULT_VECTOR as int));
}

#[verifier::external_type_specification]
#[verifier::external_body]
pub struct ExKeyEvent(KeyEvent);

#[verifier::external_type_specification]
#[verifier::external_body]
pub struct ExKeyCode(KeyCode);

/// The stateful scan-code decoder the keyboard handler feeds: a
/// `pc_keyboard::Keyboard` over scan-code set 1 and the US 104-key layout.
/// Its decoding state (multi-byte sequences, held modifiers) is opaque to
/// the contracts here; the wrappers below drive it.
#[verifier::external_body]
pub struct KeyboardState {
    inner: Keyboard<Us104Key, ScancodeSet1>,
}

/// The decoded outcome of one scan-code byte, as the kernel forwards it to
/// the text output: a Unicode character, or a key with no Unicode
/// equivalent.
pub enum KeyPress {
    Unicode(char),
    Raw(KeyCode),
}

impl KeyboardState {
    /// Relies on `pc_keyboard::Keyboard::new`: a fresh decoder for scan-code
    /// set 1 and the US 104-key layout, control keys left as letters —
    /// the configuration this kernel's keyboard handler uses.
    #[verifier::external_body]
    pub fn new() -> KeyboardState {
        KeyboardState {
            inner: Keyboard::new(ScancodeSet1::new(), Us104Key, HandleControl::Ignore),
        }
    }

    /// Relies on `pc_keyboard::Keyboard::add_byte`: feeds one scan-code byte
    /// to the stateful decoder, which yields zero or one key events per byte
    /// (scan codes span several bytes).  A protocol error is treated as "no
    /// event", exactly as the kernel's handler does.
    #[verifier::external_body]
    fn add_byte(&mut self, scancode: u8) -> (event: Option<KeyEvent>) {
        match self.inner.add_byte(scancode) {
            Ok(event) => event,
            Err(_) => None,
        }
    }

    /// Relies on `pc_keyboard::Keyboard::process_keyevent`: turns one key
    /// event into at most one decoded key, tracking modifier state across
    /// calls.
    #[verifier::external_body]
    fn process_keyevent(&mut self, event: KeyEvent) -> (key: Option<KeyPress>) {
        match self.inner.process_keyevent(event) {
            Some(DecodedKey::Unicode(character)) => Some(KeyPress::Unicode(character)),
            Some(DecodedKey::RawKey(code)) => Some(KeyPress::Raw(code)),
            None => None,
        }
    }
}

/// Handle one timer tick: send exactly one acknowledgement, for exactly the
/// timer line.  The tick has no other observable effect in this kernel.
pub fn timer_interrupt_handler(pics: &mut InterruptController) -> (vector: u8)
    requires
        old(pics).wf(),
        old(pics).is_initialized(),
        old(pics).primary() == PIC_1_OFFSET,
        old(pics).secondary() == PIC_2_OFFSET,
        old(pics).ack_counts()[InterruptIndex::Timer.spec_u8() as int] < u64::MAX,
    ensures
        vector == InterruptIndex::Timer.spec_u8(),
        final(pics).ack_counts() == spec_acknowledge(old(pics).ack_counts(), vector as int),
        final(pics).wf(),
        final(pics).is_initialized(),
        final(pics).primary() == old(pics).primary(),
        final(pics).secondary() == old(pics).secondary(),
{
    let vector = InterruptIndex::Timer.as_u8();
    pics.end_of_interrupt(vector);
    vector
}

/// Handle one keyboard interrupt, given the byte the shell read from the
/// keyboard data port: run it through the stateful decoder, hand any decoded
/// key back for the text output, and send exactly one acknowledgement, for
/// exactly the keyboard line.  Which key (if any) one byte yields depends on
/// the decoder's internal state; the acknowledgement accounting is exact
/// whatever comes back.
pub fn keyboard_interrupt_handler(
    keyboard: &mut KeyboardState,
    pics: &mut InterruptController,
    scancode: u8,
) -> (key: Option<KeyPress>)
    requires
        old(pics).wf(),
        old(pics).is_initialized(),
        old(pics).primary() == PIC_1_OFFSET,
        old(pics).secondary() == PIC_2_OFFSET,
        old(pics).ack_counts()[InterruptIndex::Keyboard.spec_u8() as int] < u64::MAX,
    ensures
        final(pics).ack_counts() == spec_acknowledge(
            old(pics).ack_counts(),
            InterruptIndex::Keyboard.spec_u8() as int,
        ),
        final(pics).wf(),
        final(pics).is_initialized(),
        final(pics).primary() == old(pics).primary(),
        final(pics).secondary() == old(pics).secondary(),
{
    let key = match keyboard.add_byte(scancode) {
        Some(event) => keyboard.process_keyevent(event),
        None => None,
    };
    pics.end_of_interrupt(InterruptIndex::Keyboard.as_u8());
    key
}

/// Handle one real-time-clock interrupt: send exactly one acknowledgement,
/// for exactly the clock's line on the secondary controller.
pub fn rtc_interrupt_handler(pics: &mut InterruptController) -> (vector: u8)
    requires
        old(pics).wf(),
        old(pics).is_initialized(),
        old(pics).primary() == PIC_1_OFFSET,
        old(pics).secondary() == PIC_2_OFFSET,
        old(pics).ack_counts()[InterruptIndex::RTC.spec_u8() as int] < u64::MAX,
    ensures
        vector == InterruptIndex::RTC.spec_u8(),
        final(pics).ack_counts() == spec_acknowledge(old(pics).ack_counts(), vector as int),
        final(pics).wf(),
        final(pics).is_initialized(),
        final(pics).primary() == old(pics).primary(),
        final(pics).secondary() == old(pics).secondary(),
{
    let vector = InterruptIndex::RTC.as_u8();
    pics.end_of_interrupt(vector);
    vector
}

} // verus!

