//! The native-backend side of a program: the per-function entry table, and the
//! mode contract that selects which functions are compiled natively.
use crate::numbers::{decimal_text, digits_of, parse_u64, u64_of};
use vstd::prelude::*;
use vstd::string::*;

verus! {

/// Index of a function in [`crate::op::Program::functions`].
#[derive(Debug, Clone, Copy, PartialEq, Eq, Structural)]
pub struct FuncIdx(pub u32);

impl FuncIdx {
    /// The index as a position.
    pub fn index(self) -> (res: usize)
        ensures
            res == self.0,
    {
        self.0 as usize
    }
}

/// How a natively compiled function handed control back.
#[derive(Debug, Clone, Copy, PartialEq, Eq, Structural)]
pub enum NativeStatus {
    /// The function returned; its result is on the stack.
    Done,
    /// The scheduling quantum ran out.
    Yield,
    /// The process parked itself.
    Parked,
    /// A runtime error was raised.
    Error,
    /// A tail call replaced the top frame, which must now be dispatched.
    TailCall,
}

/// The word that crosses the calling boundary for a status.
pub open spec fn status_code(status: NativeStatus) -> u64 {
    match status {
        NativeStatus::Done => 0,
        NativeStatus::Yield => 1,
        NativeStatus::Parked => 2,
        NativeStatus::Error => 3,
        NativeStatus::TailCall => 4,
    }
}

impl NativeStatus {
    /// The word that crosses the calling boundary.
    pub fn code(self) -> (res: u64)
        ensures
            res == status_code(self),
    {
        match self {
            NativeStatus::Done => 0,
            NativeStatus::Yield => 1,
            NativeStatus::Parked => 2,
            NativeStatus::Error => 3,
            NativeStatus::TailCall => 4,
        }
    }
}

/// Statuses are told apart by their code.
pub proof fn law_status_codes_are_distinct(a: NativeStatus, b: NativeStatus)
    ensures
        status_code(a) == status_code(b) <==> a == b,
{
}

/// The address of a compiled body.
#[derive(Debug, Clone, Copy, PartialEq, Eq, Structural)]
pub struct NativeEntry(pub u64);

/// The per-program entry table: for each function, the compiled body it has been
/// given, if any.
#[derive(Debug)]
pub struct NativeTable {
    entries: Vec<Option<NativeEntry>>,
}

impl View for NativeTable {
    type V = Seq<Option<NativeEntry>>;

    closed spec fn view(&self) -> Seq<Option<NativeEntry>> {
        self.entries@
    }
}

/// The populated slots among the first `n`, in index order.
pub open spec fn populated(slots: Seq<Option<NativeEntry>>, n: nat) -> Seq<(FuncIdx, NativeEntry)>
    decreases n,
{
    if n == 0 {
        Seq::empty()
    } else {
        let before = populated(slots, (n - 1) as nat);
        match slots[n - 1] {
            Some(entry) => before.push((FuncIdx((n - 1) as u32), entry)),
            None => before,
        }
    }
}

/// Whether every populated slot has an index. A table starts out so, and [`NativeTable::set`]
/// keeps it so.
pub open spec fn in_reach(slots: Seq<Option<NativeEntry>>) -> bool {
    forall|i: int| u32::MAX < i < slots.len() ==> (#[trigger] slots[i]) is None
}

/// The entry in the slot of an index.
pub open spec fn slot_at(slots: Seq<Option<NativeEntry>>, fn_idx: FuncIdx) -> Option<NativeEntry> {
    if fn_idx.0 < slots.len() {
        slots[fn_idx.0 as int]
    } else {
        None
    }
}

impl NativeTable {
    /// A table with `fn_count` empty slots.
    pub fn new(fn_count: usize) -> (table: NativeTable)
        ensures
            table@ == Seq::new(fn_count as nat, |i: int| None::<NativeEntry>),
            in_reach(table@),
    {
        let mut entries: Vec<Option<NativeEntry>> = Vec::new();
        let mut i: usize = 0;
        while i < fn_count
            invariant
                i <= fn_count,
                entries@ == Seq::new(i as nat, |k: int| None::<NativeEntry>),
            decreases fn_count - i,
        {
            entries.push(None);
            i = i + 1;
            assert(entries@ =~= Seq::new(i as nat, |k: int| None::<NativeEntry>));
        }
        assert(entries@ =~= Seq::new(fn_count as nat, |k: int| None::<NativeEntry>));
        NativeTable { entries }
    }

    /// Number of slots.
    pub fn len(&self) -> (res: usize)
        ensures
            res == self@.len(),
    {
        self.entries.len()
    }

    /// Whether the table has no slot at all.
    pub fn is_empty(&self) -> (res: bool)
        ensures
            res == (self@.len() == 0),
    {
        self.entries.len() == 0
    }

    /// Publish `entry` as the compiled body of `fn_idx`, which must lie within
    /// the numbering the table was sized for.
    pub fn set(&mut self, fn_idx: FuncIdx, entry: NativeEntry)
        requires
            fn_idx.0 < old(self)@.len(),
        ensures
            final(self)@ == old(self)@.update(fn_idx.0 as int, Some(entry)),
            in_reach(old(self)@) ==> in_reach(final(self)@),
    {
        self.entries.set(fn_idx.index(), Some(entry));
    }

    /// The compiled body of `fn_idx`, or `None` when the function is
    /// interpreted. Indices past the table are `None` too.
    pub fn get(&self, fn_idx: FuncIdx) -> (res: Option<NativeEntry>)
        ensures
            res == slot_at(self@, fn_idx),
    {
        let i: usize = fn_idx.index();
        if i < self.entries.len() {
            self.entries[i]
        } else {
            None
        }
    }

    /// Every populated slot, in index order. Only slots that an index names can be
    /// populated.
    pub fn compiled(&self) -> (res: Vec<(FuncIdx, NativeEntry)>)
        requires
            in_reach(self@),
        ensures
            res@ == populated(self@, self@.len()),
    {
        let mut res: Vec<(FuncIdx, NativeEntry)> = Vec::new();
        let mut i: usize = 0;
        while i < self.entries.len()
            invariant
                i <= self.entries.len(),
                self.entries@ == self@,
                in_reach(self@),
                res@ == populated(self@, i as nat),
            decreases self.entries.len() - i,
        {
            if let Some(entry) = self.entries[i] {
                res.push((FuncIdx(i as u32), entry));
            }
            i = i + 1;
        }
        res
    }
}

impl Default for NativeTable {
    fn default() -> (table: NativeTable)
        ensures
            table@ == Seq::<Option<NativeEntry>>::empty(),
    {
        NativeTable { entries: Vec::new() }
    }
}

/// An entry that is published is found under its index, every other index finds what it
/// found, and the table keeps its size and can still be walked.
pub proof fn law_published_entries_are_found(
    slots: Seq<Option<NativeEntry>>,
    fn_idx: FuncIdx,
    entry: NativeEntry,
    other: FuncIdx,
)
    requires
        fn_idx.0 < slots.len(),
    ensures
        ({
            let after = slots.update(fn_idx.0 as int, Some(entry));
            &&& slot_at(after, fn_idx) == Some(entry)
            &&& other != fn_idx ==> slot_at(after, other) == slot_at(slots, other)
            &&& after.len() == slots.len()
            &&& in_reach(slots) ==> in_reach(after)
        }),
{
}

/// The walk over the populated slots names exactly the slots that hold an entry,
/// each once and in increasing order.
pub proof fn law_compiled_lists_each_entry_once(
    slots: Seq<Option<NativeEntry>>,
    n: nat,
    fn_idx: FuncIdx,
    entry: NativeEntry,
)
    requires
        n <= slots.len(),
        in_reach(slots),
    ensures
        populated(slots, n).contains((fn_idx, entry)) <==> fn_idx.0 < n && slots[fn_idx.0 as int]
            == Some(entry),
        forall|i: int, j: int|
            0 <= i < j < populated(slots, n).len() ==> (#[trigger] populated(slots, n)[i]).0.0 < (
            #[trigger] populated(slots, n)[j]).0.0,
        forall|i: int|
            0 <= i < populated(slots, n).len() ==> (#[trigger] populated(slots, n)[i]).0.0 < n,
    decreases n,
{
    if n > 0 {
        law_compiled_lists_each_entry_once(slots, (n - 1) as nat, fn_idx, entry);
        let before = populated(slots, (n - 1) as nat);
        let now = populated(slots, n);
        if let Some(last) = slots[n - 1] {
            assert(now == before.push((FuncIdx((n - 1) as u32), last)));
            if before.contains((fn_idx, entry)) {
                let k = choose|k: int| 0 <= k < before.len() && before[k] == (fn_idx, entry);
                assert(now[k] == (fn_idx, entry));
            }
            if now.contains((fn_idx, entry)) {
                let k = choose|k: int| 0 <= k < now.len() && now[k] == (fn_idx, entry);
                if k < before.len() {
                    assert(before[k] == (fn_idx, entry));
                }
            }
            if fn_idx.0 == n - 1 && last == entry {
                assert(now[before.len() as int] == (fn_idx, entry));
            }
        }
    }
}

/// Which functions the backend is handed.
#[derive(Debug, Clone, Copy, PartialEq, Eq, Structural)]
pub enum NativeMode {
    /// Interpret everything.
    Off,
    /// Compile every eligible function.
    Native,
    /// Compile a seeded per-function subset.
    Mix,
}

impl Default for NativeMode {
    fn default() -> (mode: NativeMode)
        ensures
            mode == NativeMode::Native,
    {
        NativeMode::Native
    }
}

/// The name a mode goes by.
pub open spec fn mode_name(mode: NativeMode) -> Seq<char> {
    match mode {
        NativeMode::Off => "off"@,
        NativeMode::Native => "native"@,
        NativeMode::Mix => "mix"@,
    }
}

impl NativeMode {
    /// The name the mode goes by.
    pub fn as_str(self) -> (res: &'static str)
        ensures
            res@ == mode_name(self),
    {
        match self {
            NativeMode::Off => "off",
            NativeMode::Native => "native",
            NativeMode::Mix => "mix",
        }
    }
}

/// The backend configuration: the mode plus the seed that fixes the subset of
/// [`NativeMode::Mix`]. The seed is zero in the other modes.
#[derive(Debug, Clone, Copy, PartialEq, Eq, Structural)]
pub struct NativeConfig {
    pub mode: NativeMode,
    pub seed: u64,
}

/// What the two environment values ask for. No seed under `Mix` means that one
/// is to be drawn.
#[derive(Debug)]
pub struct Parsed {
    pub mode: NativeMode,
    pub seed: Option<u64>,
    pub warnings: Vec<String>,
}

/// The mathematical model of [`Parsed`].
pub struct ParsedView {
    pub mode: NativeMode,
    pub seed: Option<u64>,
    pub warnings: Seq<Seq<char>>,
}

impl View for Parsed {
    type V = ParsedView;

    open spec fn view(&self) -> ParsedView {
        ParsedView { mode: self.mode, seed: self.seed, warnings: texts(self.warnings@) }
    }
}

/// A string in quotes, with the characters escaped that a diagnostic must not
/// show raw.
pub uninterp spec fn quoted(s: Seq<char>) -> Seq<char>;

/// Calls `<str as core::fmt::Debug>::fmt` through `format!`: the quoted form is
/// a function of the string's characters alone. What exactly is escaped is not
/// stated.
#[verifier::external_body]
fn quote(s: &str) -> (res: String)
    ensures
        res@ == quoted(s@),
{
    format!("{s:?}")
}

/// The mode that a value of the mode variable selects.
pub open spec fn mode_of(mode: Option<Seq<char>>) -> NativeMode {
    match mode {
        Some(m) => if m == "off"@ {
            NativeMode::Off
        } else if m == "mix"@ {
            NativeMode::Mix
        } else {
            NativeMode::Native
        },
        None => NativeMode::Native,
    }
}

/// Whether the mode variable holds something that is no mode.
pub open spec fn mode_unknown(mode: Option<Seq<char>>) -> bool {
    mode matches Some(m) && m != "off"@ && m != "native"@ && m != "mix"@
}

/// The warning about an unknown mode.
pub open spec fn mode_warning(shown: Seq<char>) -> Seq<char> {
    "al: unknown AL_NATIVE value "@ + shown + " (expected off|native|mix); using native"@
}

/// The warning about a seed that is no number.
pub open spec fn seed_warning(shown: Seq<char>) -> Seq<char> {
    "al: AL_NATIVE_SEED "@ + shown + " is not a u64; drawing a random seed"@
}

/// Views of a list of strings.
pub open spec fn texts(list: Seq<String>) -> Seq<Seq<char>> {
    list.map_values(|s: String| s@)
}

/// The view of an optional string.
pub open spec fn opt_text(s: Option<&str>) -> Option<Seq<char>> {
    match s {
        Some(s) => Some(s@),
        None => None,
    }
}

/// The warning that `quote`d text of an unknown mode gives.
pub fn unknown_mode_warning(shown: &str) -> (res: String)
    ensures
        res@ == mode_warning(shown@),
{
    String::from_str("al: unknown AL_NATIVE value ").concat(shown).concat(
        " (expected off|native|mix); using native",
    )
}

/// The warning that `quote`d text of an unusable seed gives.
pub fn bad_seed_warning(shown: &str) -> (res: String)
    ensures
        res@ == seed_warning(shown@),
{
    String::from_str("al: AL_NATIVE_SEED ").concat(shown).concat(
        " is not a u64; drawing a random seed",
    )
}

/// Read the values of the mode and seed variables. The seed counts under `mix`
/// alone; what cannot be read is warned about and falls back to the default.
pub fn parse(mode: Option<&str>, seed: Option<&str>) -> (res: Parsed)
    ensures
        res.mode == mode_of(opt_text(mode)),
        res.seed == (if res.mode == NativeMode::Mix && seed is Some {
            u64_of(seed->0@)
        } else {
            None
        }),
        texts(res.warnings@) == (if mode_unknown(opt_text(mode)) {
            seq![mode_warning(quoted(mode->0@))]
        } else {
            Seq::empty()
        }) + (if res.mode == NativeMode::Mix && seed is Some && u64_of(seed->0@) is None {
            seq![seed_warning(quoted(seed->0@))]
        } else {
            Seq::empty()
        }),
{
    let mut warnings: Vec<String> = Vec::new();
    let selected: NativeMode = match mode {
        None => NativeMode::Native,
        Some(m) => if *m == *"off" {
            NativeMode::Off
        } else if *m == *"mix" {
            NativeMode::Mix
        } else {
            if *m != *"native" {
                let shown: String = quote(m);
                warnings.push(unknown_mode_warning(shown.as_str()));
            }
            NativeMode::Native
        },
    };
    let ghost first = warnings@;
    assert(texts(first) =~= if mode_unknown(opt_text(mode)) {
        seq![mode_warning(quoted(mode->0@))]
    } else {
        Seq::empty()
    });
    let chosen: Option<u64> = match seed {
        Some(s) => if selected == NativeMode::Mix {
            let n: Option<u64> = parse_u64(s);
            if n.is_none() {
                let shown: String = quote(s);
                warnings.push(bad_seed_warning(shown.as_str()));
            }
            n
        } else {
            None
        },
        None => None,
    };
    assert(texts(warnings@) =~= texts(first) + (if selected == NativeMode::Mix && seed is Some
        && u64_of(seed->0@) is None {
        seq![seed_warning(quoted(seed->0@))]
    } else {
        Seq::empty()
    }));
    Parsed { mode: selected, seed: chosen, warnings }
}

/// SplitMix64 finaliser: one well-mixed word per input word.
pub open spec fn mixed(z: u64) -> u64 {
    let a = u64::wrapping_add(z, 0x9E37_79B9_7F4A_7C15);
    let b = u64::wrapping_mul(a ^ (a >> 30), 0xBF58_476D_1CE4_E5B9);
    let c = u64::wrapping_mul(b ^ (b >> 27), 0x94D0_49BB_1331_11EB);
    c ^ (c >> 31)
}

/// SplitMix64 finaliser.
pub fn splitmix64(z: u64) -> (res: u64)
    ensures
        res == mixed(z),
{
    let a: u64 = z.wrapping_add(0x9E37_79B9_7F4A_7C15);
    let b: u64 = (a ^ (a >> 30)).wrapping_mul(0xBF58_476D_1CE4_E5B9);
    let c: u64 = (b ^ (b >> 27)).wrapping_mul(0x94D0_49BB_1331_11EB);
    c ^ (c >> 31)
}

/// Whether a configuration selects function `idx`.
pub open spec fn selects(config: NativeConfig, idx: FuncIdx) -> bool {
    match config.mode {
        NativeMode::Off => false,
        NativeMode::Native => true,
        NativeMode::Mix => mixed(config.seed ^ (idx.0 as u64)) & 1 == 0,
    }
}

/// The configuration that parsed values settle on.
pub open spec fn settled(mode: NativeMode, seed: Option<u64>, drawn: u64) -> NativeConfig {
    NativeConfig {
        mode,
        seed: if mode == NativeMode::Mix {
            match seed {
                Some(s) => s,
                None => drawn,
            }
        } else {
            0
        },
    }
}

/// The line that shows the seed of a `mix`.
pub open spec fn seed_line(seed: u64) -> Seq<char> {
    "al: native mix seed = "@ + digits_of(seed as nat)
}

/// The configuration to go by, and the lines to show for it.
pub open spec fn configured(
    remembered: Option<NativeConfig>,
    parsed: ParsedView,
    drawn: u64,
) -> (NativeConfig, Seq<Seq<char>>) {
    match remembered {
        Some(config) => (config, Seq::empty()),
        None => (
            settled(parsed.mode, parsed.seed, drawn),
            match parsed.seed {
                Some(seed) => if parsed.mode == NativeMode::Mix {
                    parsed.warnings.push(seed_line(seed))
                } else {
                    parsed.warnings
                },
                None => parsed.warnings,
            },
        ),
    }
}

/// What has been settled on once is what every later question gets, whatever the
/// variables hold by then, and nothing is shown for it.
pub proof fn law_configuration_is_settled_once(
    first: ParsedView,
    drawn: u64,
    later: ParsedView,
    drawn_later: u64,
)
    ensures
        ({
            let config = configured(None, first, drawn).0;
            configured(Some(config), later, drawn_later) == (config, Seq::<Seq<char>>::empty())
        }),
{
}

impl NativeConfig {
    /// The configuration that parsed values settle on. `drawn` is the seed to use
    /// where `mix` was asked for without a usable one.
    pub fn settle(mode: NativeMode, seed: Option<u64>, drawn: u64) -> (res: NativeConfig)
        ensures
            res == settled(mode, seed, drawn),
    {
        let seed: u64 = match mode {
            NativeMode::Mix => match seed {
                Some(s) => s,
                None => drawn,
            },
            _ => 0,
        };
        NativeConfig { mode, seed }
    }

    /// The configuration to go by, and the lines to show for it. One that has been
    /// settled on before stays, and shows nothing; otherwise warnings are shown, and the
    /// seed where `mix` was given one.
    pub fn configure(
        remembered: Option<NativeConfig>,
        parsed: Parsed,
        drawn: u64,
    ) -> (res: (NativeConfig, Vec<String>))
        ensures
            (res.0, texts(res.1@)) == configured(remembered, parsed@, drawn),
    {
        if let Some(config) = remembered {
            let none: Vec<String> = Vec::new();
            assert(texts(none@) =~= Seq::<Seq<char>>::empty());
            return (config, none);
        }
        let config: NativeConfig = NativeConfig::settle(parsed.mode, parsed.seed, drawn);
        let mut lines: Vec<String> = parsed.warnings;
        if let Some(seed) = parsed.seed {
            if parsed.mode == NativeMode::Mix {
                let ghost before = lines@;
                let number: String = decimal_text(seed);
                lines.push(String::from_str("al: native mix seed = ").concat(number.as_str()));
                assert(texts(lines@) =~= texts(before).push(seed_line(seed)));
            }
        }
        (config, lines)
    }

    /// Whether the mode selects `idx` for native compilation. Deterministic in
    /// seed and index, so a `mix` run reproduces from its seed.
    pub fn includes(&self, idx: FuncIdx) -> (res: bool)
        ensures
            res == selects(*self, idx),
    {
        match self.mode {
            NativeMode::Off => false,
            NativeMode::Native => true,
            NativeMode::Mix => splitmix64(self.seed ^ (idx.0 as u64)) & 1 == 0,
        }
    }
}

/// `off` selects no function and `native` every one, whatever the seed.
pub proof fn law_off_and_native_are_total(seed: u64, idx: FuncIdx)
    ensures
        !selects((NativeConfig { mode: NativeMode::Off, seed }), idx),
        selects((NativeConfig { mode: NativeMode::Native, seed }), idx),
{
}

/// The longest time a `core::time::Duration` holds, in nanoseconds.
pub const MAX_NANOS: u128 = 18446744073709551615999999999;

/// The time a unit may take in the native backend, in nanoseconds.
pub const UNIT_BUDGET_NANOS: u128 = 100000000;

/// Whole-unit accounting for the compile-at-load pass: how many bodies the mode
/// selected and how many nanoseconds the backend spent on them.
#[derive(Debug, Clone, Copy, PartialEq, Eq, Structural)]
pub struct UnitStats {
    pub selected: usize,
    pub elapsed: u128,
}

impl Default for UnitStats {
    fn default() -> (stats: UnitStats)
        ensures
            stats == (UnitStats { selected: 0, elapsed: 0 }),
    {
        UnitStats { selected: 0, elapsed: 0 }
    }
}

impl UnitStats {
    /// Count one more body that took `elapsed` nanoseconds.
    pub fn record(&mut self, elapsed: u128)
        requires
            old(self).selected < usize::MAX,
            old(self).elapsed + elapsed <= MAX_NANOS,
        ensures
            final(self).selected == old(self).selected + 1,
            final(self).elapsed == old(self).elapsed + elapsed,
    {
        self.selected = self.selected + 1;
        self.elapsed = self.elapsed + elapsed;
    }

    /// Whether the unit took longer than its budget.
    pub fn over_budget(&self) -> (res: bool)
        ensures
            res == (self.elapsed > UNIT_BUDGET_NANOS),
    {
        self.elapsed > UNIT_BUDGET_NANOS
    }
}

} // verus!
