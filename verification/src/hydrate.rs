//! Type annotations: what they name is entered, and what is wrong with them reported.
use crate::ast::{Annotation, Ident, TypeMention};
use crate::diag::Message;
use crate::imports::TypeUse;
use crate::refs::ReferenceKind;
use crate::state::{Compiler, State};
use vstd::prelude::*;

verus! {

impl State {
    /// Enter the types that the first `n` mentions name.
    #[verifier::opaque]
    pub open spec fn mention(self, list: Seq<TypeMention>, n: nat) -> State
        decreases n,
    {
        if n == 0 {
            self
        } else {
            let m = list[n - 1];
            self.mention(list, (n - 1) as nat).type_use(
                m.module,
                (TypeUse { span: m.span, kind: ReferenceKind::Unqualified, name: m.name }),
            )
        }
    }

    /// Take an annotation into account.
    #[verifier::opaque]
    pub open spec fn hydrate(self, a: Annotation) -> State {
        let t = self.mention(a.mentions@, a.mentions@.len());
        match a.fault {
            Some((fault, span)) => t.error(Message::BadAnnotation { fault }, span),
            None => t,
        }
    }

    /// Take the annotation at a place into account, if there is one.
    pub open spec fn hydrate_at(self, list: Seq<Annotation>, i: int) -> State {
        if i < list.len() {
            self.hydrate(list[i])
        } else {
            self
        }
    }

    /// Take the first `n` annotations into account.
    #[verifier::opaque]
    pub open spec fn hydrate_all(self, list: Seq<Annotation>, n: nat) -> State
        decreases n,
    {
        if n == 0 {
            self
        } else {
            self.hydrate_all(list, (n - 1) as nat).hydrate(list[n - 1])
        }
    }

    /// Bind the first `n` parameters, each behind its annotation.
    #[verifier::opaque]
    pub open spec fn bind_params(self, ids: Seq<Ident>, list: Seq<Annotation>, n: nat) -> State
        decreases n,
    {
        if n == 0 {
            self
        } else {
            self.bind_params(ids, list, (n - 1) as nat).hydrate_at(list, n - 1).bind_ident(
                ids[n - 1],
            )
        }
    }
}

impl Compiler {
    /// Take an annotation into account: every type it names occurs there, and what is
    /// wrong with it is reported.
    pub fn hydrate(&mut self, a: &Annotation)
        ensures
            final(self)@ == old(self)@.hydrate(*a),
    {
        proof {
            reveal(State::hydrate);
            reveal(State::mention);
        }
        let ghost s = self@;
        let mut n: usize = 0;
        while n < a.mentions.len()
            invariant
                n <= a.mentions.len(),
                self@ == s.mention(a.mentions@, n as nat),
            decreases a.mentions.len() - n,
        {
            proof {
                reveal(State::mention);
            }
            let m: TypeMention = a.mentions[n];
            self.record_type_use(
                m.module,
                TypeUse { span: m.span, kind: ReferenceKind::Unqualified, name: m.name },
            );
            n = n + 1;
        }
        if let Some((fault, span)) = a.fault {
            self.error(Message::BadAnnotation { fault }, span);
        }
    }

    /// Take the annotations of a signature into account.
    pub fn hydrate_fn_signature(&mut self, list: &Vec<Annotation>)
        ensures
            final(self)@ == old(self)@.hydrate_all(list@, list@.len()),
    {
        proof {
            reveal(State::hydrate_all);
        }
        let ghost s = self@;
        let mut n: usize = 0;
        while n < list.len()
            invariant
                n <= list.len(),
                self@ == s.hydrate_all(list@, n as nat),
            decreases list.len() - n,
        {
            proof {
                reveal(State::hydrate_all);
            }
            self.hydrate(&list[n]);
            n = n + 1;
        }
    }

    /// Bind parameters, each behind its annotation.
    pub fn bind_params(&mut self, ids: &Vec<Ident>, list: &Vec<Annotation>)
        ensures
            final(self)@ == old(self)@.bind_params(ids@, list@, ids@.len()),
    {
        proof {
            reveal(State::bind_params);
        }
        let ghost s = self@;
        let mut n: usize = 0;
        while n < ids.len()
            invariant
                n <= ids.len(),
                self@ == s.bind_params(ids@, list@, n as nat),
            decreases ids.len() - n,
        {
            proof {
                reveal(State::bind_params);
            }
            if n < list.len() {
                self.hydrate(&list[n]);
            }
            self.bind_param(ids[n]);
            n = n + 1;
        }
    }
}

} // verus!
