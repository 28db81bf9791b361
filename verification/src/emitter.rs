//! The bundle emitter: accumulates the instructions of one source line into a
//! single 32-bit machine word, validates the line's issue-slot usage, and
//! commits accepted words to the output program.

use crate::errors::AsmError;
use vstd::prelude::*;

verus! {

/// The functional-unit category an instruction occupies inside a bundle.
/// The per-bundle issue limits are enforced per category.
#[derive(PartialEq, Eq, Structural, Clone, Copy, Debug)]
pub enum InstrType {
    Alu,
    XBus,
    YBus,
    D1Bus,
    FlowControl,
}

/// How many instructions of each category have been issued into the current
/// bundle. The set of categories is closed, so a field per category replaces
/// an open map.
#[derive(PartialEq, Eq, Structural, Clone, Copy, Debug)]
pub struct InstrTypeCounts {
    pub alu: usize,
    pub xbus: usize,
    pub ybus: usize,
    pub d1bus: usize,
    pub flow: usize,
}

/// Mathematical view of the per-category issue counts.
#[verifier::ext_equal]
pub ghost struct CountsModel {
    pub alu: nat,
    pub xbus: nat,
    pub ybus: nat,
    pub d1bus: nat,
    pub flow: nat,
}

impl CountsModel {
    /// All counts zero.
    pub open spec fn zero() -> CountsModel {
        CountsModel { alu: 0, xbus: 0, ybus: 0, d1bus: 0, flow: 0 }
    }

    /// The count recorded for one category.
    pub open spec fn count(self, t: InstrType) -> nat {
        match t {
            InstrType::Alu => self.alu,
            InstrType::XBus => self.xbus,
            InstrType::YBus => self.ybus,
            InstrType::D1Bus => self.d1bus,
            InstrType::FlowControl => self.flow,
        }
    }

    /// Total number of category registrations in the bundle.
    pub open spec fn total(self) -> nat {
        self.alu + self.xbus + self.ybus + self.d1bus + self.flow
    }

    /// The counts after one more instruction of category `t`.
    pub open spec fn bump(self, t: InstrType) -> CountsModel {
        match t {
            InstrType::Alu => CountsModel { alu: self.alu + 1, ..self },
            InstrType::XBus => CountsModel { xbus: self.xbus + 1, ..self },
            InstrType::YBus => CountsModel { ybus: self.ybus + 1, ..self },
            InstrType::D1Bus => CountsModel { d1bus: self.d1bus + 1, ..self },
            InstrType::FlowControl => CountsModel { flow: self.flow + 1, ..self },
        }
    }
}

/// The issue-slot rules for one bundle, checked in this order; the first
/// violated rule decides the reported error. The manual's 4-instruction
/// limit is deliberately not enforced: X-Bus and Y-Bus fields are one-hot
/// encoded and independent, so up to 2 of each may be issued concurrently,
/// and the total is capped at 6.
pub open spec fn bundle_verdict(c: CountsModel) -> Result<(), AsmError> {
    if c.flow > 1 {
        Err(AsmError::TooManyFlowControl)
    } else if c.alu > 1 {
        Err(AsmError::TooManyAlu)
    } else if c.xbus > 2 {
        Err(AsmError::TooManyXBus)
    } else if c.ybus > 2 {
        Err(AsmError::TooManyYBus)
    } else if c.total() > 6 {
        Err(AsmError::TooManyInstructions)
    } else {
        Ok(())
    }
}

/// The bundle limits are enforced independently: a bundle passes validation
/// exactly when no single rule is violated — at most one flow-control
/// instruction, at most one ALU instruction, at most two X-Bus and two
/// Y-Bus instructions, and at most six instructions in all.
pub proof fn lemma_bundle_limits(c: CountsModel)
    ensures
        bundle_verdict(c) is Ok <==> (c.flow <= 1 && c.alu <= 1 && c.xbus <= 2 && c.ybus <= 2
            && c.total() <= 6),
{
}

/// Mathematical view of a `Program`: the committed words, the label table as
/// a map, and the transient bundle-accumulation state.
#[verifier::ext_equal]
pub ghost struct ProgModel {
    pub words: Seq<u32>,
    pub pc: u32,
    pub labels: Map<Seq<char>, u32>,
    pub word: u32,
    pub is_emitting: bool,
    pub emitted: nat,
    pub counts: CountsModel,
    pub line: u32,
}

impl ProgModel {
    /// The model of a fresh, empty program.
    pub open spec fn init() -> ProgModel {
        ProgModel {
            words: Seq::empty(),
            pc: 0,
            labels: Map::empty(),
            word: 0,
            is_emitting: false,
            emitted: 0,
            counts: CountsModel::zero(),
            line: 0,
        }
    }

    /// The state after `begin`: accumulation active and the bundle empty.
    pub open spec fn m_begin(self) -> ProgModel {
        ProgModel { word: 0, emitted: 0, is_emitting: true, counts: CountsModel::zero(), ..self }
    }

    /// `begin` only when not already accumulating.
    pub open spec fn m_begin_if_not_begun(self) -> ProgModel {
        if self.is_emitting {
            self
        } else {
            self.m_begin()
        }
    }

    /// The state after emitting `word` into the bundle.
    pub open spec fn m_emit(self, word: u32) -> ProgModel {
        ProgModel { word: self.word | word, emitted: self.emitted + 1, ..self }
    }

    /// The state after registering one instruction of category `t`.
    pub open spec fn m_register(self, t: InstrType) -> ProgModel {
        ProgModel { counts: self.counts.bump(t), ..self }
    }

    /// The state after recording the current program counter under `name`.
    pub open spec fn m_add_label(self, name: Seq<char>) -> ProgModel {
        ProgModel { labels: self.labels.insert(name, self.pc), ..self }
    }

    /// The state after advancing to the next source line (the counter
    /// saturates rather than wrap).
    pub open spec fn m_next_line(self) -> ProgModel {
        if self.line < u32::MAX {
            ProgModel { line: (self.line + 1) as u32, ..self }
        } else {
            self
        }
    }

    /// True when `flush` commits the accumulated word: the bundle is
    /// non-empty, passes validation, and the program counter can still
    /// advance by one word.
    pub open spec fn m_commits(self) -> bool {
        self.emitted > 0 && bundle_verdict(self.counts) is Ok && self.pc + 4 <= u32::MAX
    }

    /// The outcome `flush` reports for this state.
    pub open spec fn m_flush_result(self) -> Result<(), AsmError> {
        if self.emitted == 0 {
            Ok(())
        } else if bundle_verdict(self.counts) is Err {
            bundle_verdict(self.counts)
        } else if self.pc + 4 > u32::MAX {
            Err(AsmError::ProgramTooLarge)
        } else {
            Ok(())
        }
    }

    /// The state after `flush`: the word committed if the bundle commits,
    /// and the accumulation state cleared either way.
    pub open spec fn m_flush(self) -> ProgModel {
        let cleared = ProgModel {
            word: 0,
            emitted: 0,
            is_emitting: false,
            counts: CountsModel::zero(),
            ..self
        };
        if self.m_commits() {
            ProgModel { words: self.words.push(self.word), pc: (self.pc + 4) as u32, ..cleared }
        } else {
            cleared
        }
    }
}

/// The label table as a mathematical map: later entries of the association
/// list shadow earlier ones, so a redefinition overwrites the prior value.
pub open spec fn labels_view(s: Seq<(String, u32)>) -> Map<Seq<char>, u32>
    decreases s.len(),
{
    if s.len() == 0 {
        Map::empty()
    } else {
        labels_view(s.drop_last()).insert(s.last().0@, s.last().1)
    }
}

/// The assembled output under construction, together with the transient state
/// of the bundle currently being accumulated.
#[derive(Clone, Debug)]
pub struct Program {
    /// Committed program code: one 32-bit word per non-empty source line.
    pub prog: Vec<u32>,

    /// Program counter: the byte address of the next bundle to be committed.
    pub pc: u32,

    /// Label table: name and the program-counter value recorded when the
    /// label appeared. Later entries shadow earlier ones.
    pub labels: Vec<(String, u32)>,

    /// The word being accumulated for the current bundle.
    pub word: u32,

    /// True while a bundle is being accumulated.
    pub is_emitting: bool,

    /// Number of instructions emitted into the current bundle.
    pub emitted: usize,

    /// Per-category issue counts for the current bundle.
    pub instr_type_counts: InstrTypeCounts,

    /// Current source line, starting at 0.
    pub line: u32,
}

impl Program {
    /// The mathematical view of this program state.
    pub open spec fn model(&self) -> ProgModel {
        ProgModel {
            words: self.prog@,
            pc: self.pc,
            labels: labels_view(self.labels@),
            word: self.word,
            is_emitting: self.is_emitting,
            emitted: self.emitted as nat,
            counts: CountsModel {
                alu: self.instr_type_counts.alu as nat,
                xbus: self.instr_type_counts.xbus as nat,
                ybus: self.instr_type_counts.ybus as nat,
                d1bus: self.instr_type_counts.d1bus as nat,
                flow: self.instr_type_counts.flow as nat,
            },
            line: self.line,
        }
    }

    /// Between lines: no bundle is being accumulated and the accumulation
    /// state is clear. `begin` establishes a bundle from here and `flush`
    /// re-establishes this.
    pub open spec fn quiescent(&self) -> bool {
        &&& !self.is_emitting
        &&& self.emitted == 0
        &&& self.word == 0
        &&& self.model().counts == CountsModel::zero()
    }

    /// A fresh, empty program, not accumulating.
    pub fn new() -> (r: Program)
        ensures
            r.model() == ProgModel::init(),
            r.quiescent(),
    {
        Program {
            prog: Vec::new(),
            pc: 0,
            labels: Vec::new(),
            word: 0,
            is_emitting: false,
            emitted: 0,
            instr_type_counts: InstrTypeCounts {
                alu: 0,
                xbus: 0,
                ybus: 0,
                d1bus: 0,
                flow: 0,
            },
            line: 0,
        }
    }

    /// Starts accumulating a new bundle. Calling this while already
    /// accumulating is a contract violation between parser and emitter, so it
    /// is excluded by precondition rather than reported at run time.
    pub fn begin(&mut self)
        requires
            !old(self).is_emitting,
        ensures
            final (self).model() == old(self).model().m_begin(),
    {
        self.word = 0;
        self.emitted = 0;
        self.is_emitting = true;
        self.instr_type_counts = InstrTypeCounts {
            alu: 0,
            xbus: 0,
            ybus: 0,
            d1bus: 0,
            flow: 0,
        };
    }

    /// Starts a new bundle unless one is already being accumulated; beginning
    /// twice without an intervening commit must not reset work in progress.
    pub fn begin_if_not_begun(&mut self)
        ensures
            final (self).model() == old(self).model().m_begin_if_not_begun(),
    {
        if !self.is_emitting {
            self.begin();
        }
    }

    /// ORs the given instruction word into the current bundle and counts one
    /// more emitted instruction. Requires accumulation to be active.
    pub fn emit(&mut self, word: u32)
        requires
            old(self).is_emitting,
            old(self).emitted < usize::MAX,
        ensures
            final (self).model() == old(self).model().m_emit(word),
    {
        self.word = self.word | word;
        self.emitted = self.emitted + 1;
    }

    /// Sets a single bit of the current bundle word and counts one more
    /// emitted instruction.
    pub fn emit_bit(&mut self, bit: u32)
        requires
            old(self).is_emitting,
            old(self).emitted < usize::MAX,
            bit < 32,
        ensures
            final (self).model() == old(self).model().m_emit(1u32 << bit),
    {
        self.word = self.word | (1u32 << bit);
        self.emitted = self.emitted + 1;
    }

    /// Sets each listed bit of the current bundle word and counts one more
    /// emitted instruction (the whole list is a single instruction).
    pub fn emit_bits(&mut self, bits: Vec<u32>)
        requires
            old(self).is_emitting,
            old(self).emitted < usize::MAX,
            forall|i: int| 0 <= i < bits@.len() ==> bits@[i] < 32,
        ensures
            final (self).model() == old(self).model().m_emit(word_of_bits(bits@)),
    {
        let ghost all_bits = bits@;
        let mut word: u32 = 0;
        let mut i: usize = 0;
        while i < bits.len()
            invariant
                i <= all_bits.len(),
                bits@ == all_bits,
                forall|j: int| 0 <= j < all_bits.len() ==> all_bits[j] < 32,
                word == word_of_bits(all_bits.take(i as int)),
            decreases bits.len() - i,
        {
            proof {
                assert(all_bits.take(i + 1).drop_last() =~= all_bits.take(i as int));
                assert(all_bits.take(i + 1).last() == all_bits[i as int]);
            }
            word = word | (1u32 << bits[i]);
            i = i + 1;
        }
        proof {
            assert(all_bits.take(all_bits.len() as int) =~= all_bits);
        }
        self.emit(word);
    }

    /// Records that an instruction of category `t` was just emitted.
    pub fn register_emitted(&mut self, instr_type: InstrType)
        requires
            old(self).model().counts.count(instr_type) < usize::MAX,
        ensures
            final (self).model() == old(self).model().m_register(instr_type),
    {
        match instr_type {
            InstrType::Alu => {
                self.instr_type_counts.alu = self.instr_type_counts.alu + 1;
            }
            InstrType::XBus => {
                self.instr_type_counts.xbus = self.instr_type_counts.xbus + 1;
            }
            InstrType::YBus => {
                self.instr_type_counts.ybus = self.instr_type_counts.ybus + 1;
            }
            InstrType::D1Bus => {
                self.instr_type_counts.d1bus = self.instr_type_counts.d1bus + 1;
            }
            InstrType::FlowControl => {
                self.instr_type_counts.flow = self.instr_type_counts.flow + 1;
            }
        }
    }

    /// Checks the accumulated per-category counts against the issue-slot
    /// rules.
    fn validate_bundle(&self) -> (r: Result<(), AsmError>)
        ensures
            r == bundle_verdict(self.model().counts),
    {
        let c = &self.instr_type_counts;
        if c.flow > 1 {
            return Err(AsmError::TooManyFlowControl);
        }
        if c.alu > 1 {
            return Err(AsmError::TooManyAlu);
        }
        if c.xbus > 2 {
            return Err(AsmError::TooManyXBus);
        }
        if c.ybus > 2 {
            return Err(AsmError::TooManyYBus);
        }
        // Here alu <= 1, xbus <= 2, ybus <= 2 and flow <= 1, so once the
        // unbounded d1bus count is known small the sum cannot overflow.
        if c.d1bus > 6 || c.alu + c.xbus + c.ybus + c.d1bus + c.flow > 6 {
            return Err(AsmError::TooManyInstructions);
        }
        Ok(())
    }

    /// Commits the current bundle. An empty bundle (a blank or comment-only
    /// line) is discarded without appending a word or advancing the program
    /// counter. A non-empty bundle is validated; on success its word is
    /// appended and the program counter advances by one word-width, on
    /// failure the program is left untouched by this bundle. Either way the
    /// accumulation state is cleared so the next line starts clean.
    pub fn flush(&mut self) -> (r: Result<(), AsmError>)
        ensures
            r == old(self).model().m_flush_result(),
            final (self).model() == old(self).model().m_flush(),
            final (self).quiescent(),
    {
        let mut result: Result<(), AsmError> = Ok(());
        if self.emitted > 0 {
            match self.validate_bundle() {
                Err(e) => {
                    result = Err(e);
                }
                Ok(()) => {
                    if self.pc > u32::MAX - 4 {
                        result = Err(AsmError::ProgramTooLarge);
                    } else {
                        self.prog.push(self.word);
                        self.pc = self.pc + 4;
                    }
                }
            }
        }
        self.is_emitting = false;
        self.word = 0;
        self.emitted = 0;
        self.instr_type_counts = InstrTypeCounts {
            alu: 0,
            xbus: 0,
            ybus: 0,
            d1bus: 0,
            flow: 0,
        };
        proof {
            assert(self.model() =~= old(self).model().m_flush());
        }
        result
    }

    /// Records the current program counter under `label`, overwriting any
    /// prior entry for that name.
    pub fn add_label(&mut self, label: String)
        ensures
            final (self).model() == old(self).model().m_add_label(label@),
    {
        let ghost old_labels = self.labels@;
        let pc = self.pc;
        self.labels.push((label, pc));
        proof {
            assert(self.labels@.drop_last() =~= old_labels);
            assert(self.model() =~= old(self).model().m_add_label(label@));
        }
    }

    /// Advances the current-line counter past one line break; the counter
    /// saturates rather than wrap.
    pub fn next_line(&mut self)
        ensures
            final (self).model() == old(self).model().m_next_line(),
    {
        if self.line < u32::MAX {
            self.line = self.line + 1;
        }
    }

    /// Sets the program counter, for relocation or origin directives.
    pub fn set_pc(&mut self, pc: u32)
        ensures
            final (self).model() == (ProgModel { pc, ..old(self).model() }),
    {
        self.pc = pc;
    }

    /// Looks a label up in the table; a redefined label yields the value
    /// recorded last.
    pub fn lookup_label(&self, name: &str) -> (r: Option<u32>)
        ensures
            r == if self.model().labels.contains_key(name@) {
                Some(self.model().labels[name@])
            } else {
                None::<u32>
            },
    {
        let key = String::from_str(name);
        let mut i: usize = self.labels.len();
        while i > 0
            invariant
                i <= self.labels@.len(),
                key@ == name@,
                forall|j: int| i <= j < self.labels@.len() ==> self.labels@[j].0@ != name@,
            decreases i,
        {
            i = i - 1;
            if self.labels[i].0 == key {
                proof {
                    lemma_labels_view_found(self.labels@, name@, i as int);
                }
                return Some(self.labels[i].1);
            }
        }
        proof {
            lemma_labels_view_absent(self.labels@, name@);
        }
        None
    }

    /// Serializes the committed words in program order, each as 4 bytes,
    /// big-endian.
    pub fn to_bytes(&self) -> (r: Vec<u8>)
        ensures
            r@.len() == 4 * self.model().words.len(),
            forall|i: int|
                0 <= i < self.model().words.len() ==> r@.subrange(4 * i, 4 * i + 4)
                    == word_be_bytes(self.model().words[i]),
    {
        let mut out: Vec<u8> = Vec::new();
        let mut i: usize = 0;
        while i < self.prog.len()
            invariant
                i <= self.prog@.len(),
                out@.len() == 4 * i,
                forall|j: int|
                    0 <= j < i ==> out@.subrange(4 * j, 4 * j + 4) == word_be_bytes(
                        self.prog@[j],
                    ),
            decreases self.prog@.len() - i,
        {
            let ghost prev = out@;
            let w = self.prog[i];
            assert(((w >> 24) & 0xff) < 256 && ((w >> 16) & 0xff) < 256 && ((w >> 8) & 0xff)
                < 256 && (w & 0xff) < 256) by (bit_vector);
            out.push(((w >> 24) & 0xff) as u8);
            out.push(((w >> 16) & 0xff) as u8);
            out.push(((w >> 8) & 0xff) as u8);
            out.push((w & 0xff) as u8);
            proof {
                assert(out@.subrange(4 * i as int, 4 * i as int + 4) =~= word_be_bytes(
                    self.prog@[i as int],
                ));
                assert(forall|j: int|
                    0 <= j < i ==> #[trigger] out@.subrange(4 * j, 4 * j + 4) =~= prev.subrange(
                        4 * j,
                        4 * j + 4,
                    ));
            }
            i = i + 1;
        }
        out
    }
}

/// The character of one binary digit.
pub open spec fn bin_char(b: u32) -> char {
    if b == 0 {
        '0'
    } else {
        '1'
    }
}

/// A word's 32 binary digits, most significant first.
pub open spec fn word_bin_chars(w: u32) -> Seq<char> {
    Seq::new(32, |k: int| bin_char((w >> ((31 - k) as u32)) & 1))
}

/// The lowercase character of one hexadecimal digit.
pub open spec fn hex_char(nib: u32) -> char {
    if nib < 10 {
        ((48 + nib) as u8) as char
    } else {
        ((87 + nib) as u8) as char
    }
}

/// A word's 8 hexadecimal digits, most significant first.
pub open spec fn word_hex_chars(w: u32) -> Seq<char> {
    Seq::new(8, |k: int| hex_char((w >> ((28 - 4 * k) as u32)) & 0xf))
}

/// One dump line: the word in binary and in hexadecimal.
pub open spec fn dump_line_chars(w: u32) -> Seq<char> {
    seq!['0', 'b'] + word_bin_chars(w) + seq![' ', '0', 'x'] + word_hex_chars(w)
}

/// Appends the character of one hexadecimal digit to a string.
fn push_hex_digit(line: &mut String, nib: u32)
    requires
        nib < 16,
    ensures
        final (line)@ == old(line)@.push(hex_char(nib)),
{
    let digit: &str = match nib {
        0 => "0",
        1 => "1",
        2 => "2",
        3 => "3",
        4 => "4",
        5 => "5",
        6 => "6",
        7 => "7",
        8 => "8",
        9 => "9",
        10 => "a",
        11 => "b",
        12 => "c",
        13 => "d",
        14 => "e",
        _ => "f",
    };
    proof {
        reveal_strlit("0");
        reveal_strlit("1");
        reveal_strlit("2");
        reveal_strlit("3");
        reveal_strlit("4");
        reveal_strlit("5");
        reveal_strlit("6");
        reveal_strlit("7");
        reveal_strlit("8");
        reveal_strlit("9");
        reveal_strlit("a");
        reveal_strlit("b");
        reveal_strlit("c");
        reveal_strlit("d");
        reveal_strlit("e");
        reveal_strlit("f");
    }
    let ghost before = line@;
    line.append(digit);
    proof {
        assert(before + digit@ =~= before.push(hex_char(nib)));
    }
}

impl Program {
    /// Renders the committed words for inspection, one line per word in
    /// program order, each as its binary and hexadecimal digits.
    pub fn debug_dump(&self) -> (r: Vec<String>)
        ensures
            r@.len() == self.model().words.len(),
            forall|i: int|
                0 <= i < r@.len() ==> #[trigger] r@[i]@ == dump_line_chars(
                    self.model().words[i],
                ),
    {
        proof {
            reveal_strlit("0b");
            reveal_strlit(" 0x");
        }
        let mut out: Vec<String> = Vec::new();
        let mut i: usize = 0;
        while i < self.prog.len()
            invariant
                i <= self.prog@.len(),
                out@.len() == i,
                forall|j: int|
                    0 <= j < i ==> #[trigger] out@[j]@ == dump_line_chars(self.prog@[j]),
                "0b"@ == seq!['0', 'b'],
                " 0x"@ == seq![' ', '0', 'x'],
            decreases self.prog@.len() - i,
        {
            let w = self.prog[i];
            let mut line = String::new();
            line.append("0b");
            proof {
                assert(line@ =~= seq!['0', 'b'] + word_bin_chars(w).take(0));
            }
            let mut k: usize = 0;
            while k < 32
                invariant
                    k <= 32,
                    line@ == seq!['0', 'b'] + word_bin_chars(w).take(k as int),
                decreases 32 - k,
            {
                proof {
                    reveal_strlit("0");
                    reveal_strlit("1");
                }
                let bit = (w >> ((31 - k) as u32)) & 1;
                if bit == 0 {
                    line.append("0");
                } else {
                    line.append("1");
                }
                proof {
                    assert(word_bin_chars(w).take(k + 1) =~= word_bin_chars(w).take(
                        k as int,
                    ).push(bin_char((w >> ((31 - k) as u32)) & 1)));
                    assert(line@ =~= seq!['0', 'b'] + word_bin_chars(w).take(k + 1));
                }
                k = k + 1;
            }
            proof {
                assert(word_bin_chars(w).take(32) =~= word_bin_chars(w));
            }
            line.append(" 0x");
            proof {
                assert(line@ =~= seq!['0', 'b'] + word_bin_chars(w) + seq![' ', '0', 'x']
                    + word_hex_chars(w).take(0));
            }
            let mut h: usize = 0;
            while h < 8
                invariant
                    h <= 8,
                    line@ == seq!['0', 'b'] + word_bin_chars(w) + seq![' ', '0', 'x']
                        + word_hex_chars(w).take(h as int),
                decreases 8 - h,
            {
                let sh = (28 - 4 * h) as u32;
                let nib = (w >> sh) & 0xf;
                assert((w >> sh) & 0xfu32 < 16) by (bit_vector);
                push_hex_digit(&mut line, nib);
                proof {
                    assert(word_hex_chars(w).take(h + 1) =~= word_hex_chars(w).take(
                        h as int,
                    ).push(hex_char((w >> ((28 - 4 * h) as u32)) & 0xf)));
                    assert(line@ =~= seq!['0', 'b'] + word_bin_chars(w) + seq![' ', '0', 'x']
                        + word_hex_chars(w).take(h + 1));
                }
                h = h + 1;
            }
            proof {
                assert(word_hex_chars(w).take(8) =~= word_hex_chars(w));
                assert(line@ =~= dump_line_chars(w));
            }
            out.push(line);
            i = i + 1;
        }
        out
    }
}

impl Default for Program {
    /// A fresh, empty program, as `Program::new` gives.
    fn default() -> (r: Program)
        ensures
            r.model() == ProgModel::init(),
            r.quiescent(),
    {
        Program::new()
    }
}

/// The 4-byte big-endian rendering of one machine word.
pub open spec fn word_be_bytes(w: u32) -> Seq<u8> {
    seq![
        ((w >> 24) & 0xff) as u8,
        ((w >> 16) & 0xff) as u8,
        ((w >> 8) & 0xff) as u8,
        (w & 0xff) as u8,
    ]
}

/// If entry `i` holds key `k` and no later entry does, the label map takes
/// `k` to entry `i`'s value.
proof fn lemma_labels_view_found(s: Seq<(String, u32)>, k: Seq<char>, i: int)
    requires
        0 <= i < s.len(),
        s[i].0@ == k,
        forall|j: int| i < j < s.len() ==> s[j].0@ != k,
    ensures
        labels_view(s).contains_key(k),
        labels_view(s)[k] == s[i].1,
    decreases s.len(),
{
    if i == s.len() - 1 {
    } else {
        lemma_labels_view_found(s.drop_last(), k, i);
    }
}

/// If no entry holds key `k`, the label map has no entry for it.
proof fn lemma_labels_view_absent(s: Seq<(String, u32)>, k: Seq<char>)
    requires
        forall|j: int| 0 <= j < s.len() ==> s[j].0@ != k,
    ensures
        !labels_view(s).contains_key(k),
    decreases s.len(),
{
    if s.len() > 0 {
        lemma_labels_view_absent(s.drop_last(), k);
    }
}

/// The word whose set bits are exactly the listed bit positions.
pub open spec fn word_of_bits(bits: Seq<u32>) -> u32
    decreases bits.len(),
{
    if bits.len() == 0 {
        0u32
    } else {
        word_of_bits(bits.drop_last()) | (1u32 << bits.last())
    }
}

} // verus!
