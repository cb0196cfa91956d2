//! Strings by number.

use crate::error::{Error, ErrorView, StorageError};
use crate::ids::InternedString;
use vstd::prelude::*;

verus! {

/// How many strings may be interned, unless configured otherwise. The number above the last one is
/// never given to a string.
pub const DEFAULT_MAX_INTERNED: u32 = 0xffff_ffff;

/// Gives strings numbers, counting up, each string one number.
#[derive(Debug)]
pub struct StringInterner {
    /// The strings, by number.
    pub strings: Vec<String>,
    /// How many there may be.
    pub limit: u32,
}

/// The strings as text.
pub open spec fn texts_of(strings: Seq<String>) -> Seq<Seq<char>> {
    Seq::new(strings.len(), |i: int| strings[i]@)
}

impl StringInterner {
    /// The strings, by number.
    pub open spec fn texts(self) -> Seq<Seq<char>> {
        texts_of(self.strings@)
    }

    /// No string has two numbers, and there are no more than there may be.
    pub open spec fn well_formed(self) -> bool {
        &&& self.texts().no_duplicates()
        &&& self.strings@.len() <= self.limit
    }

    /// The number of a string, where it has one.
    pub open spec fn id_of(self, text: Seq<char>) -> Option<InternedString> {
        if self.texts().contains(text) {
            Some(InternedString(self.texts().index_of(text) as u32))
        } else {
            None
        }
    }

    /// The interner after a string was handed to it: a new string comes last, if there is room.
    pub open spec fn after_intern(self, text: Seq<char>, after: StringInterner) -> bool {
        &&& after.limit == self.limit
        &&& after.texts() == if self.id_of(text) is None && self.strings@.len() < self.limit {
            self.texts().push(text)
        } else {
            self.texts()
        }
    }

    /// An interner without strings.
    pub fn new() -> (r: StringInterner)
        ensures
            r.well_formed(),
            r.strings@.len() == 0,
            r.limit == DEFAULT_MAX_INTERNED,
    {
        StringInterner { strings: Vec::new(), limit: DEFAULT_MAX_INTERNED }
    }

    /// An interner without strings that takes no more than `limit`.
    pub fn with_limit(limit: u32) -> (r: StringInterner)
        ensures
            r.well_formed(),
            r.strings@.len() == 0,
            r.limit == limit,
    {
        StringInterner { strings: Vec::new(), limit }
    }

    /// The number of a string, where it has one.
    pub fn get_id(&self, text: &str) -> (r: Option<InternedString>)
        requires
            self.well_formed(),
        ensures
            r == self.id_of(text@),
            r is Some ==> r->Some_0.0 < self.strings@.len() && self.strings@[r->Some_0.0 as int]@
                == text@,
    {
        let wanted = String::from_str(text);
        let mut i: usize = 0;
        while i < self.strings.len()
            invariant
                i <= self.strings.len(),
                self.well_formed(),
                wanted@ == text@,
                forall|j: int| 0 <= j < i ==> (#[trigger] self.strings@[j])@ != text@,
            decreases self.strings.len() - i,
        {
            if self.strings[i] == wanted {
                assert(self.texts()[i as int] == text@);
                assert(self.texts().index_of(text@) == i);
                return Some(InternedString(i as u32));
            }
            i = i + 1;
        }
        assert(!self.texts().contains(text@)) by {
            if self.texts().contains(text@) {
                let j = self.texts().index_of(text@);
                assert(self.strings@[j]@ == text@);
            }
        }
        None
    }

    /// The number of a string, which is given one if it has none and there is room.
    pub fn intern(&mut self, text: &str) -> (r: Result<InternedString, Error>)
        requires
            old(self).well_formed(),
        ensures
            final(self).well_formed(),
            old(self).after_intern(text@, *final(self)),
            match old(self).id_of(text@) {
                Some(id) => r == Ok::<InternedString, Error>(id),
                None => if old(self).strings@.len() < old(self).limit {
                    r == Ok::<InternedString, Error>(
                        InternedString(old(self).strings@.len() as u32),
                    )
                } else {
                    &&& r is Err
                    &&& r->Err_0@ == (ErrorView::CapacityExceeded {
                        resource: "string interner"@,
                        current: old(self).strings@.len() as usize,
                        limit: old(self).limit as usize,
                    })
                },
            },
            r is Ok ==> final(self).id_of(text@) == Some(r->Ok_0),
            forall|other: Seq<char>|
                old(self).id_of(other) is Some ==> #[trigger] final(self).id_of(other) == old(
                    self,
                ).id_of(other),
    {
        let found = self.get_id(text);
        if let Some(id) = found {
            return Ok(id);
        }
        let count: usize = self.strings.len();
        if count >= self.limit as usize {
            return Err(
                Error::Storage(
                    StorageError::CapacityExceeded {
                        resource: String::from_str("string interner"),
                        current: count,
                        limit: self.limit as usize,
                    },
                ),
            );
        }
        let ghost before = self.texts();
        self.strings.push(String::from_str(text));
        proof {
            assert(self.texts() =~= before.push(text@));
            assert(self.texts()[count as int] == text@);
            assert(self.texts().index_of(text@) == count);
            assert forall|other: Seq<char>| old(self).id_of(other) is Some implies #[trigger] self.id_of(
                other,
            ) == old(self).id_of(other) by {
                let j = before.index_of(other);
                assert(before.contains(other));
                assert(before[j] == other);
                assert(self.texts()[j] == other);
                assert(self.texts().index_of(other) == j);
            }
        }
        Ok(InternedString(count as u32))
    }

    /// The string with the given number.
    pub fn resolve(&self, id: InternedString) -> (r: Option<&String>)
        ensures
            r == (if id.0 < self.strings@.len() {
                Some(&self.strings@[id.0 as int])
            } else {
                None
            }),
    {
        if (id.0 as usize) < self.strings.len() {
            Some(&self.strings[id.0 as usize])
        } else {
            None
        }
    }
}

/// A string that has a number is found under it, and no other string has that number.
pub proof fn law_numbers_are_unique(interner: StringInterner, a: Seq<char>, b: Seq<char>)
    requires
        interner.well_formed(),
        interner.id_of(a) is Some,
        interner.id_of(a) == interner.id_of(b),
    ensures
        a == b,
        interner.texts()[interner.id_of(a)->Some_0.0 as int] == a,
{
    let texts = interner.texts();
    assert(texts[texts.index_of(a)] == a);
    assert(texts[texts.index_of(b)] == b);
    assert(texts.index_of(a) <= u32::MAX);
    assert(texts.index_of(b) <= u32::MAX);
}

/// A string that is handed to an interner with room is found afterwards under one number, the next
/// one if it had none, and every string that had a number keeps it.
pub proof fn law_interned_strings_keep_their_numbers(
    interner: StringInterner,
    text: Seq<char>,
    after: StringInterner,
    other: Seq<char>,
)
    requires
        interner.well_formed(),
        after.well_formed(),
        interner.after_intern(text, after),
    ensures
        interner.id_of(other) is Some ==> after.id_of(other) == interner.id_of(other),
        interner.strings@.len() < interner.limit ==> after.id_of(text) is Some
            && after.texts()[after.id_of(text)->Some_0.0 as int] == text,
        interner.strings@.len() < interner.limit && !interner.texts().contains(text)
            ==> after.id_of(text) == Some(InternedString(interner.strings@.len() as u32)),
        interner.strings@.len() >= interner.limit && !interner.texts().contains(text)
            ==> after.id_of(text) is None,
        other != text && interner.id_of(other) is None ==> after.id_of(other) is None,
{
    let before = interner.texts();
    let texts = after.texts();
    if before.contains(other) {
        let i = before.index_of(other);
        assert(before[i] == other && texts[i] == other);
        assert(texts.contains(other));
        assert(texts[texts.index_of(other)] == other);
    }
    if interner.id_of(text) is None && interner.strings@.len() < interner.limit {
        assert(texts[before.len() as int] == text);
        assert(texts.contains(text));
        assert(texts[texts.index_of(text)] == text);
    }
    if texts.contains(other) && other != text {
        let i = texts.index_of(other);
        assert(texts[i] == other);
        assert(before[i] == other);
    }
    if before.contains(text) {
        let i = before.index_of(text);
        assert(before[i] == text);
        assert(texts[texts.index_of(text)] == text);
        assert(texts.index_of(text) <= u32::MAX);
    }
}

} // verus!
