//! Slotting the arguments of a constructor into its fields: positional ones in
//! order, labelled ones by name.
use crate::ast::{Ident, Span, StrId};
use crate::diag::{slice_of, ArenaSlice, Diagnostic, Message};
use crate::state::{error_at, Compiler, State};
use vstd::prelude::*;

verus! {

/// An argument as slotting sees it: its label, where it stands, and its place in
/// the argument list.
#[derive(Debug, Clone, Copy, PartialEq, Eq, Structural)]
pub struct ArgKey {
    pub label: Option<Ident>,
    pub span: Span,
    pub arg: usize,
}

/// A constructor as slotting sees it.
#[derive(Debug, Clone, Copy, PartialEq, Eq, Structural)]
pub struct CtorShape {
    pub name: StrId,
    pub arity: usize,
    pub labels: ArenaSlice,
}

/// What is said of fields left out: where, and whether a pattern left them out.
#[derive(Debug, Clone, Copy, PartialEq, Eq, Structural)]
pub struct MissingReport {
    pub span: Span,
    pub in_pattern: bool,
}

/// The first field from `i` on with a label.
pub open spec fn field_at(labels: Seq<StrId>, arity: nat, i: nat, label: StrId) -> Option<int>
    decreases arity - i,
{
    if i >= arity || i >= labels.len() {
        None
    } else if labels[i as int] == label {
        Some(i as int)
    } else {
        field_at(labels, arity, i + 1, label)
    }
}

/// The label of a field, if it has one.
pub open spec fn label_of(labels: Seq<StrId>, i: int) -> Option<StrId> {
    if 0 <= i < labels.len() {
        Some(labels[i])
    } else {
        None
    }
}

/// How far slotting has come: what it has reported, the arguments by field, how
/// many positional ones there were, and whether all fitted.
pub struct Slotting {
    pub reports: Seq<Diagnostic>,
    pub by_pos: Seq<Option<usize>>,
    pub next: nat,
    pub ok: bool,
}

impl Slotting {
    /// An argument that fits no field.
    pub open spec fn reject(self, diag: bool, message: Message, span: Span) -> Slotting {
        Slotting {
            reports: if diag {
                self.reports.push(error_at(message, span))
            } else {
                self.reports
            },
            ok: false,
            ..self
        }
    }

    /// An argument for field `i`. The last one given wins.
    pub open spec fn place(
        self,
        diag: bool,
        labels: Seq<StrId>,
        i: int,
        arg: usize,
        span: Span,
    ) -> Slotting {
        let t = if self.by_pos[i] is Some {
            self.reject(diag, Message::FieldTwice { label: label_of(labels, i) }, span)
        } else {
            self
        };
        Slotting { by_pos: self.by_pos.update(i, Some(arg)), ..t }
    }

    /// Slot one argument.
    pub open spec fn step(
        self,
        ctor: CtorShape,
        labels: Seq<StrId>,
        diag: bool,
        key: ArgKey,
    ) -> Slotting {
        match key.label {
            None => {
                let t = Slotting { next: self.next + 1, ..self };
                if self.next >= ctor.arity {
                    t.reject(
                        diag,
                        Message::TooManyFields { name: ctor.name, arity: ctor.arity },
                        key.span,
                    )
                } else {
                    t.place(diag, labels, self.next as int, key.arg, key.span)
                }
            },
            Some(l) => match field_at(labels, ctor.arity as nat, 0, l.name) {
                Some(i) => self.place(diag, labels, i, key.arg, l.span),
                None => self.reject(
                    diag,
                    Message::UnknownField { name: ctor.name, label: l.name, known: ctor.labels },
                    l.span,
                ),
            },
        }
    }
}

/// Slotting after the first `n` arguments.
pub open spec fn slotting(
    labels: Seq<StrId>,
    ctor: CtorShape,
    diag: bool,
    keys: Seq<ArgKey>,
    n: nat,
) -> Slotting
    decreases n,
{
    if n == 0 {
        Slotting {
            reports: Seq::empty(),
            by_pos: Seq::new(ctor.arity as nat, |i: int| None::<usize>),
            next: 0,
            ok: true,
        }
    } else {
        slotting(labels, ctor, diag, keys, (n - 1) as nat).step(ctor, labels, diag, keys[n - 1])
    }
}

/// The labels of the fields among the first `n` that no argument was given for.
pub open spec fn absent(
    by_pos: Seq<Option<usize>>,
    labels: Seq<StrId>,
    blank: StrId,
    n: nat,
) -> Seq<StrId>
    decreases n,
{
    if n == 0 {
        Seq::empty()
    } else {
        let before = absent(by_pos, labels, blank, (n - 1) as nat);
        if by_pos[n - 1] is None {
            before.push(
                match label_of(labels, n - 1) {
                    Some(l) => l,
                    None => blank,
                },
            )
        } else {
            before
        }
    }
}

impl State {
    /// Report several things.
    #[verifier::opaque]
    pub open spec fn report_all(self, reports: Seq<Diagnostic>) -> State {
        State { diags: self.diags + reports, ..self }
    }

    /// Report fields left out, their labels going into the label pool.
    pub open spec fn report_missing(
        self,
        ctor: CtorShape,
        report: MissingReport,
        fields: Seq<StrId>,
    ) -> State {
        (State { labels: self.labels + fields, ..self }).error(
            Message::MissingFields {
                name: ctor.name,
                fields: ArenaSlice { start: self.labels.len() as u32, len: fields.len() as u16 },
                in_pattern: report.in_pattern,
            },
            report.span,
        )
    }
}

/// What slotting yields: the compiler's state, the arguments by field, and
/// whether all was well.
pub struct Slotted {
    pub s: State,
    pub by_pos: Seq<Option<usize>>,
    pub ok: bool,
}

/// Slotting all arguments, fields left out being reported where that is asked
/// for.
#[verifier::opaque]
pub open spec fn slotted(
    s: State,
    ctor: CtorShape,
    diag: bool,
    keys: Seq<ArgKey>,
    missing: Option<MissingReport>,
) -> Slotted {
    let labels = slice_of(s.labels, ctor.labels);
    let t = slotting(labels, ctor, diag, keys, keys.len());
    let reported = s.report_all(t.reports);
    let fields = absent(t.by_pos, labels, s.world.blank, ctor.arity as nat);
    if missing is Some && fields.len() > 0 {
        Slotted {
            s: if diag {
                reported.report_missing(ctor, missing->0, fields)
            } else {
                reported
            },
            by_pos: t.by_pos,
            ok: false,
        }
    } else {
        Slotted { s: reported, by_pos: t.by_pos, ok: t.ok }
    }
}

proof fn lemma_slotting_frame(
    labels: Seq<StrId>,
    ctor: CtorShape,
    diag: bool,
    keys: Seq<ArgKey>,
    n: nat,
)
    requires
        n <= keys.len(),
    ensures
        slotting(labels, ctor, diag, keys, n).by_pos.len() == ctor.arity,
        slotting(labels, ctor, diag, keys, n).next <= n,
    decreases n,
{
    if n > 0 {
        lemma_slotting_frame(labels, ctor, diag, keys, (n - 1) as nat);
        if let Some(l) = keys[n - 1].label {
            lemma_first_field(labels, ctor.arity as nat, 0, l.name);
        }
    }
}

/// Slotting invents no argument: what it slots are places of the argument list.
pub proof fn lemma_slotted_in_range(
    s: State,
    ctor: CtorShape,
    diag: bool,
    keys: Seq<ArgKey>,
    missing: Option<MissingReport>,
    bound: int,
)
    requires
        forall|k: int| 0 <= k < keys.len() ==> (#[trigger] keys[k]).arg < bound,
    ensures
        slotted(s, ctor, diag, keys, missing).by_pos.len() == ctor.arity,
        forall|i: int|
            0 <= i < ctor.arity ==> (#[trigger] slotted(s, ctor, diag, keys, missing).by_pos[i]
                matches Some(a) ==> a < bound),
{
    reveal(slotted);
    let labels = slice_of(s.labels, ctor.labels);
    lemma_slotting_in_range(labels, ctor, diag, keys, keys.len(), bound);
    lemma_slotting_frame(labels, ctor, diag, keys, keys.len());
    let t = slotting(labels, ctor, diag, keys, keys.len());
    assert(slotted(s, ctor, diag, keys, missing).by_pos == t.by_pos);
}

proof fn lemma_slotting_in_range(
    labels: Seq<StrId>,
    ctor: CtorShape,
    diag: bool,
    keys: Seq<ArgKey>,
    n: nat,
    bound: int,
)
    requires
        n <= keys.len(),
        forall|k: int| 0 <= k < keys.len() ==> (#[trigger] keys[k]).arg < bound,
    ensures
        forall|i: int|
            0 <= i < ctor.arity ==> (#[trigger] slotting(labels, ctor, diag, keys, n).by_pos[i] matches Some(
                a,
            ) ==> a < bound),
    decreases n,
{
    lemma_slotting_frame(labels, ctor, diag, keys, n);
    if n > 0 {
        lemma_slotting_frame(labels, ctor, diag, keys, (n - 1) as nat);
        lemma_slotting_in_range(labels, ctor, diag, keys, (n - 1) as nat, bound);
        if let Some(l) = keys[n - 1].label {
            lemma_first_field(labels, ctor.arity as nat, 0, l.name);
        }
        let prev = slotting(labels, ctor, diag, keys, (n - 1) as nat);
        let now = slotting(labels, ctor, diag, keys, n);
        assert forall|i: int| 0 <= i < ctor.arity implies (#[trigger] now.by_pos[i] matches Some(a)
            ==> a < bound) by {
            if now.by_pos[i] != prev.by_pos[i] {
                assert(now.by_pos[i] == Some(keys[n - 1].arg));
            }
        }
    }
}

/// A copy of the entries a slice stands for.
pub fn entries_of<T: Copy>(pool: &Vec<T>, sl: ArenaSlice) -> (res: Vec<T>)
    ensures
        res@ == slice_of(pool@, sl),
{
    let start: usize = sl.start as usize;
    let len: usize = sl.len as usize;
    let mut res: Vec<T> = Vec::new();
    if start > pool.len() || len > pool.len() - start {
        assert(res@ =~= slice_of(pool@, sl));
        return res;
    }
    let mut i: usize = 0;
    while i < len
        invariant
            i <= len,
            start + len <= pool.len(),
            res@ == pool@.subrange(start as int, start + i),
        decreases len - i,
    {
        res.push(pool[start + i]);
        i = i + 1;
        assert(res@ =~= pool@.subrange(start as int, start + i));
    }
    res
}

fn find_field(labels: &Vec<StrId>, arity: usize, label: StrId) -> (res: Option<usize>)
    ensures
        match res {
            Some(i) => field_at(labels@, arity as nat, 0, label) == Some(i as int) && i < arity,
            None => field_at(labels@, arity as nat, 0, label) is None,
        },
{
    let mut i: usize = 0;
    while i < arity && i < labels.len()
        invariant
            i <= arity,
            i <= labels.len(),
            field_at(labels@, arity as nat, 0, label) == field_at(
                labels@,
                arity as nat,
                i as nat,
                label,
            ),
        decreases arity - i,
    {
        if labels[i] == label {
            return Some(i);
        }
        i = i + 1;
    }
    None
}

impl Compiler {
    /// Slot constructor arguments into field order. `diag` turns diagnostics on;
    /// `missing` asks for a report on fields left out. Returns the arguments by
    /// field, and whether all was well.
    pub fn slot_ctor_args(
        &mut self,
        ctor: CtorShape,
        keys: &Vec<ArgKey>,
        missing: Option<MissingReport>,
        diag: bool,
    ) -> (res: (Vec<Option<usize>>, bool))
        requires
            ctor.arity <= u16::MAX,
        ensures
            ({
                let t = slotted(old(self)@, ctor, diag, keys@, missing);
                final(self)@ == t.s && res.0@ == t.by_pos && res.1 == t.ok
            }),
            res.0@.len() == ctor.arity,
    {
        proof {
            reveal(slotted);
        }
        let ghost s = self@;
        let labels: Vec<StrId> = entries_of(&self.labels, ctor.labels);
        let ghost known = slice_of(s.labels, ctor.labels);
        let mut by_pos: Vec<Option<usize>> = Vec::new();
        let mut k: usize = 0;
        while k < ctor.arity
            invariant
                k <= ctor.arity,
                by_pos@ == Seq::new(k as nat, |i: int| None::<usize>),
            decreases ctor.arity - k,
        {
            by_pos.push(None);
            k = k + 1;
            assert(by_pos@ =~= Seq::new(k as nat, |i: int| None::<usize>));
        }
        let mut next: usize = 0;
        let mut ok: bool = true;
        proof {
            reveal(Compiler::model);
            reveal(State::report_all);
            assert(s.diags + Seq::<Diagnostic>::empty() =~= s.diags);
        }
        let mut n: usize = 0;
        while n < keys.len()
            invariant
                n <= keys.len(),
                labels@ == known,
                known == slice_of(s.labels, ctor.labels),
                by_pos@.len() == ctor.arity,
                next <= n,
                ({
                    let t = slotting(known, ctor, diag, keys@, n as nat);
                    self@ == s.report_all(t.reports) && by_pos@ == t.by_pos && next == t.next && ok
                        == t.ok
                }),
            decreases keys.len() - n,
        {
            let key: ArgKey = keys[n];
            let mut field: Option<(usize, Span)> = None;
            match key.label {
                None => {
                    let i: usize = next;
                    next = next + 1;
                    if i >= ctor.arity {
                        if diag {
                            self.error(
                                Message::TooManyFields { name: ctor.name, arity: ctor.arity },
                                key.span,
                            );
                        }
                        ok = false;
                    } else {
                        field = Some((i, key.span));
                    }
                },
                Some(l) => match find_field(&labels, ctor.arity, l.name) {
                    Some(i) => {
                        field = Some((i, l.span));
                    },
                    None => {
                        if diag {
                            self.error(
                                Message::UnknownField {
                                    name: ctor.name,
                                    label: l.name,
                                    known: ctor.labels,
                                },
                                l.span,
                            );
                        }
                        ok = false;
                    },
                },
            }
            if let Some((i, span)) = field {
                if by_pos[i].is_some() {
                    if diag {
                        let label: Option<StrId> = if i < labels.len() {
                            Some(labels[i])
                        } else {
                            None
                        };
                        self.error(Message::FieldTwice { label }, span);
                    }
                    ok = false;
                }
                by_pos.set(i, Some(key.arg));
            }
            proof {
                reveal(Compiler::model);
                reveal(State::error);
                reveal(State::report_all);
                let now = slotting(known, ctor, diag, keys@, (n + 1) as nat).reports;
                assert(self@.diags =~= s.diags + now);
            }
            n = n + 1;
        }
        proof {
            reveal(Compiler::model);
            reveal(State::report_all);
        }
        if let Some(report) = missing {
            let mut fields: Vec<StrId> = Vec::new();
            let mut i: usize = 0;
            while i < ctor.arity
                invariant
                    i <= ctor.arity,
                    labels@ == known,
                    by_pos@.len() == ctor.arity,
                    self@ == s.report_all(slotting(known, ctor, diag, keys@, keys@.len()).reports),
                    self.world == s.world,
                    fields@ == absent(by_pos@, known, s.world.blank, i as nat),
                    fields@.len() <= i,
                decreases ctor.arity - i,
            {
                if by_pos[i].is_none() {
                    let label: StrId = if i < labels.len() {
                        labels[i]
                    } else {
                        self.world.blank
                    };
                    fields.push(label);
                }
                i = i + 1;
            }
            if fields.len() > 0 {
                if diag {
                    let ghost before = self@;
                    let start: u32 = self.labels.len() as u32;
                    let len: u16 = fields.len() as u16;
                    let ghost added = fields@;
                    self.labels.append(&mut fields);
                    assert(self@.labels =~= before.labels + added);
                    self.error(
                        Message::MissingFields {
                            name: ctor.name,
                            fields: ArenaSlice { start, len },
                            in_pattern: report.in_pattern,
                        },
                        report.span,
                    );
                }
                ok = false;
            }
        }
        (by_pos, ok)
    }
}

proof fn lemma_first_field(labels: Seq<StrId>, arity: nat, i: nat, label: StrId)
    ensures
        field_at(labels, arity, i, label) matches Some(k) ==> i <= k < arity && k < labels.len()
            && labels[k] == label,
    decreases arity - i,
{
    if i < arity && i < labels.len() && labels[i as int] != label {
        lemma_first_field(labels, arity, i + 1, label);
    }
}

/// Whether slotting sends the argument `key`, with `next` positional ones before
/// it, to field `i`.
pub open spec fn goes_to(
    ctor: CtorShape,
    labels: Seq<StrId>,
    key: ArgKey,
    next: nat,
    i: int,
) -> bool {
    match key.label {
        None => next < ctor.arity && i == next,
        Some(l) => field_at(labels, ctor.arity as nat, 0, l.name) == Some(i),
    }
}

proof fn lemma_slotting_fills(labels: Seq<StrId>, ctor: CtorShape, diag: bool, keys: Seq<ArgKey>, n: nat)
    requires
        n <= keys.len(),
        slotting(labels, ctor, diag, keys, n).ok,
    ensures
        forall|m: nat| m <= n ==> (#[trigger] slotting(labels, ctor, diag, keys, m)).ok,
        forall|m: nat, i: int|
            m <= n && 0 <= i < ctor.arity && (#[trigger] slotting(
                labels,
                ctor,
                diag,
                keys,
                m,
            ).by_pos[i]) is Some ==> slotting(labels, ctor, diag, keys, n).by_pos[i] == slotting(
                labels,
                ctor,
                diag,
                keys,
                m,
            ).by_pos[i],
    decreases n,
{
    lemma_slotting_frame(labels, ctor, diag, keys, n);
    if n > 0 {
        lemma_slotting_frame(labels, ctor, diag, keys, (n - 1) as nat);
        let prev = slotting(labels, ctor, diag, keys, (n - 1) as nat);
        assert(prev.ok);
        lemma_slotting_fills(labels, ctor, diag, keys, (n - 1) as nat);
        assert forall|m: nat, i: int|
            m <= n && 0 <= i < ctor.arity && (#[trigger] slotting(
                labels,
                ctor,
                diag,
                keys,
                m,
            ).by_pos[i]) is Some implies slotting(labels, ctor, diag, keys, n).by_pos[i] == slotting(
            labels,
            ctor,
            diag,
            keys,
            m,
        ).by_pos[i] by {
            if m < n {
                assert(prev.by_pos[i] == slotting(labels, ctor, diag, keys, m).by_pos[i]);
                if let Some(l) = keys[n - 1].label {
                    lemma_first_field(
                        labels,
                        ctor.arity as nat,
                        0,
                        l.name,
                    );
                }
            }
        }
    }
}

/// When slotting reports no fault, every argument sits in the field its label,
/// or its position among the unlabelled arguments, selects.
pub proof fn law_arguments_reach_their_fields(
    labels: Seq<StrId>,
    ctor: CtorShape,
    diag: bool,
    keys: Seq<ArgKey>,
    k: int,
)
    requires
        0 <= k < keys.len(),
        slotting(labels, ctor, diag, keys, keys.len()).ok,
    ensures
        exists|i: int|
            0 <= i < ctor.arity && goes_to(
                ctor,
                labels,
                keys[k],
                slotting(labels, ctor, diag, keys, k as nat).next,
                i,
            ) && #[trigger] slotting(labels, ctor, diag, keys, keys.len()).by_pos[i] == Some(
                keys[k].arg,
            ),
{
    let n = keys.len();
    lemma_slotting_fills(labels, ctor, diag, keys, n);
    lemma_slotting_frame(labels, ctor, diag, keys, k as nat);
    let t = slotting(labels, ctor, diag, keys, k as nat);
    let u = slotting(labels, ctor, diag, keys, (k + 1) as nat);
    assert(u.ok && t.ok);
    let i = match keys[k].label {
        None => t.next as int,
        Some(l) => field_at(labels, ctor.arity as nat, 0, l.name)->0,
    };
    if let Some(l) = keys[k].label {
        lemma_first_field(labels, ctor.arity as nat, 0, l.name);
    }
    assert(u.by_pos[i] == Some(keys[k].arg));
    assert(slotting(labels, ctor, diag, keys, n).by_pos[i] == u.by_pos[i]);
}

proof fn lemma_nothing_absent(by_pos: Seq<Option<usize>>, labels: Seq<StrId>, blank: StrId, n: nat)
    requires
        absent(by_pos, labels, blank, n).len() == 0,
    ensures
        forall|i: int| 0 <= i < n ==> (#[trigger] by_pos[i]) is Some,
    decreases n,
{
    if n > 0 {
        lemma_nothing_absent(by_pos, labels, blank, (n - 1) as nat);
    }
}

/// When fields left out are to be reported and slotting reports no fault, every
/// field has an argument.
pub proof fn law_no_field_is_left_out(
    s: State,
    ctor: CtorShape,
    diag: bool,
    keys: Seq<ArgKey>,
    report: MissingReport,
    i: int,
)
    requires
        slotted(s, ctor, diag, keys, Some(report)).ok,
        0 <= i < ctor.arity,
    ensures
        slotted(s, ctor, diag, keys, Some(report)).by_pos[i] is Some,
{
    reveal(slotted);
    let labels = slice_of(s.labels, ctor.labels);
    let t = slotting(labels, ctor, diag, keys, keys.len());
    lemma_nothing_absent(t.by_pos, labels, s.world.blank, ctor.arity as nat);
}

/// Slotting with diagnostics off gives the same fields and verdict, and reports
/// nothing.
pub proof fn law_quiet_slotting_agrees(
    labels: Seq<StrId>,
    ctor: CtorShape,
    keys: Seq<ArgKey>,
    n: nat,
)
    requires
        n <= keys.len(),
    ensures
        slotting(labels, ctor, false, keys, n).reports.len() == 0,
        slotting(labels, ctor, false, keys, n).by_pos == slotting(
            labels,
            ctor,
            true,
            keys,
            n,
        ).by_pos,
        slotting(labels, ctor, false, keys, n).ok == slotting(labels, ctor, true, keys, n).ok,
        slotting(labels, ctor, false, keys, n).next == slotting(labels, ctor, true, keys, n).next,
    decreases n,
{
    if n > 0 {
        law_quiet_slotting_agrees(labels, ctor, keys, (n - 1) as nat);
    }
}

} // verus!
