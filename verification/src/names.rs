//! The interner behind every [`StrId`].
use crate::ast::StrId;
use vstd::prelude::*;
use vstd::string::*;

verus! {

/// The text an id stands for. An id nothing was interned under stands for the
/// empty text.
pub open spec fn text_of(names: Seq<Seq<char>>, id: StrId) -> Seq<char> {
    if id < names.len() {
        names[id as int]
    } else {
        Seq::empty()
    }
}

/// Interned strings: equal texts share one id, and ids count up from zero.
#[derive(Debug)]
pub struct Interner {
    strs: Vec<String>,
}

impl View for Interner {
    type V = Seq<Seq<char>>;

    closed spec fn view(&self) -> Seq<Seq<char>> {
        self.strs@.map_values(|s: String| s@)
    }
}

/// The first id of a text from `i` on.
pub open spec fn id_of(names: Seq<Seq<char>>, i: nat, text: Seq<char>) -> Option<StrId>
    decreases names.len() - i,
{
    if i >= names.len() {
        None
    } else if names[i as int] == text {
        Some(i as u32)
    } else {
        id_of(names, i + 1, text)
    }
}

/// No text is interned twice.
pub open spec fn distinct(names: Seq<Seq<char>>) -> bool {
    forall|i: int, j: int|
        0 <= i < j < names.len() ==> #[trigger] names[i] != #[trigger] names[j]
}

impl Interner {
    /// An interner that holds nothing.
    pub fn new() -> (res: Interner)
        ensures
            res@ == Seq::<Seq<char>>::empty(),
    {
        let res: Interner = Interner { strs: Vec::new() };
        assert(res@ =~= Seq::<Seq<char>>::empty());
        res
    }

    /// The id of a text, which is entered if it is new. Ids are 32 bits wide.
    pub fn intern(&mut self, s: &str) -> (id: StrId)
        requires
            old(self)@.len() < u32::MAX,
        ensures
            id < final(self)@.len(),
            text_of(final(self)@, id) == s@,
            old(self)@.contains(s@) ==> final(self)@ == old(self)@,
            !old(self)@.contains(s@) ==> final(self)@ == old(self)@.push(s@),
            distinct(old(self)@) ==> distinct(final(self)@),
    {
        let mut i: usize = 0;
        while i < self.strs.len()
            invariant
                i <= self.strs.len(),
                self@ == old(self)@,
                self@.len() == self.strs@.len(),
                self@.len() < u32::MAX,
                forall|k: int| 0 <= k < i ==> self@[k] != s@,
            decreases self.strs.len() - i,
        {
            if *self.strs[i].as_str() == *s {
                assert(self@[i as int] == s@);
                return i as u32;
            }
            i = i + 1;
        }
        let id: u32 = self.strs.len() as u32;
        self.strs.push(String::from_str(s));
        assert(self@ =~= old(self)@.push(s@));
        id
    }

    /// The id of a text, if it has been entered.
    pub fn find(&self, s: &str) -> (res: Option<StrId>)
        ensures
            res == id_of(self@, 0, s@),
    {
        let mut i: usize = 0;
        while i < self.strs.len()
            invariant
                i <= self.strs.len(),
                self@.len() == self.strs@.len(),
                id_of(self@, 0, s@) == id_of(self@, i as nat, s@),
            decreases self.strs.len() - i,
        {
            assert(self@[i as int] == self.strs@[i as int]@);
            if *self.strs[i].as_str() == *s {
                return Some(i as u32);
            }
            i = i + 1;
        }
        None
    }

    /// The text of an id.
    pub fn text(&self, id: StrId) -> (res: &str)
        ensures
            res@ == text_of(self@, id),
    {
        let i: usize = id as usize;
        if i < self.strs.len() {
            self.strs[i].as_str()
        } else {
            proof {
                reveal_strlit("");
                assert(""@ =~= Seq::<char>::empty());
            }
            ""
        }
    }

    /// Whether an id's text is `s`.
    pub fn is(&self, id: StrId, s: &str) -> (res: bool)
        ensures
            res == (text_of(self@, id) == s@),
    {
        *self.text(id) == *s
    }

    /// Whether an id's text starts with an underscore.
    pub fn is_ignored(&self, id: StrId) -> (res: bool)
        ensures
            res == ignored(self@, id),
    {
        let t: &str = self.text(id);
        t.unicode_len() > 0 && t.get_char(0) == '_'
    }
}

/// Whether a name is exempt from the check for unused bindings: it starts with
/// an underscore.
pub open spec fn ignored(names: Seq<Seq<char>>, id: StrId) -> bool {
    text_of(names, id).len() > 0 && text_of(names, id)[0] == '_'
}

/// In an interner without repetitions, two ids in use are equal exactly when
/// their texts are.
pub proof fn law_ids_are_texts(names: Seq<Seq<char>>, a: StrId, b: StrId)
    requires
        distinct(names),
        a < names.len(),
        b < names.len(),
    ensures
        a == b <==> text_of(names, a) == text_of(names, b),
{
    if a < b {
        assert(names[a as int] != names[b as int]);
    }
    if b < a {
        assert(names[b as int] != names[a as int]);
    }
}

} // verus!
