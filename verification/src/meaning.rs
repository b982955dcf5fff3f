//! Semantic-meaning bookkeeping: a compile-time map from meaning names to
//! event field paths, with a uniqueness rule - one meaning never refers to
//! two different fields within a program.

use vstd::prelude::*;

use vstd::map::*;

verus! {

/// Why assigning a semantic meaning was refused.
#[derive(Clone, Copy, Debug, PartialEq, Eq, Structural)]
pub enum MeaningError {
    /// The target of the assignment is not an external field.
    NonExternalTarget,
    /// The target field is not known to exist for all events.
    UnknownField,
    /// The meaning already refers to a different field.
    ConflictingMeaning,
}

/// The meanings assigned so far, each to exactly one field path.
#[derive(Debug)]
pub struct MeaningList {
    entries: Vec<(String, String)>,
}

/// The map a list of entries denotes; a later entry for a key would win,
/// but the list keeps its keys unique.
pub open spec fn map_of(s: Seq<(Seq<char>, Seq<char>)>) -> Map<Seq<char>, Seq<char>>
    decreases s.len(),
{
    if s.len() == 0 {
        Map::empty()
    } else {
        map_of(s.drop_last()).insert(s.last().0, s.last().1)
    }
}

impl View for MeaningList {
    type V = Map<Seq<char>, Seq<char>>;

    closed spec fn view(&self) -> Map<Seq<char>, Seq<char>> {
        map_of(self.entries.deep_view())
    }
}

proof fn lemma_map_of_entries(s: Seq<(Seq<char>, Seq<char>)>, k: Seq<char>)
    ensures
        map_of(s).contains_key(k) == exists|i: int| 0 <= i < s.len() && (#[trigger] s[i]).0 == k,
        forall|i: int|
            0 <= i < s.len() && (#[trigger] s[i]).0 == k && (forall|j: int|
                i < j < s.len() ==> (#[trigger] s[j]).0 != k) ==> map_of(s).contains_key(k)
                && map_of(s)[k] == s[i].1,
    decreases s.len(),
{
    if s.len() == 0 {
    } else {
        lemma_map_of_entries(s.drop_last(), k);
        assert forall|i: int| 0 <= i < s.len() && (#[trigger] s[i]).0 == k implies map_of(
            s,
        ).contains_key(k) by {
            if i < s.len() - 1 {
                assert(s.drop_last()[i] == s[i]);
                assert(map_of(s.drop_last()).contains_key(k));
            }
        }
        if map_of(s).contains_key(k) {
            if s.last().0 != k {
                assert(map_of(s.drop_last()).contains_key(k));
                let i = choose|i: int|
                    0 <= i < s.drop_last().len() && (#[trigger] s.drop_last()[i]).0 == k;
                assert(s[i].0 == k);
            }
        }
        assert forall|i: int|
            0 <= i < s.len() && (#[trigger] s[i]).0 == k && (forall|j: int|
                i < j < s.len() ==> (#[trigger] s[j]).0 != k) implies map_of(s).contains_key(k)
            && map_of(s)[k] == s[i].1 by {
            if i == s.len() - 1 {
                assert(map_of(s)[k] == s.last().1);
            } else {
                assert(s.last().0 != k);
                assert forall|j: int|
                    i < j < s.drop_last().len() implies (#[trigger] s.drop_last()[j]).0 != k by {
                    assert(s.drop_last()[j] == s[j]);
                }
                assert(s.drop_last()[i] == s[i]);
                assert(map_of(s.drop_last())[k] == s[i].1);
            }
        }
    }
}

impl MeaningList {
    /// Keys are unique, so each meaning denotes exactly one path.
    pub closed spec fn wf(&self) -> bool {
        forall|i: int, j: int|
            0 <= i < j < self.entries.deep_view().len() ==> self.entries.deep_view()[i].0
                != self.entries.deep_view()[j].0
    }

    /// An empty list.
    pub fn new() -> (r: MeaningList)
        ensures
            r@ == Map::<Seq<char>, Seq<char>>::empty(),
            r.wf(),
    {
        let r = MeaningList { entries: Vec::new() };
        proof {
            assert(r.entries.deep_view() =~= Seq::<(Seq<char>, Seq<char>)>::empty());
        }
        r
    }

    /// The path a meaning refers to, if it was assigned.
    pub fn lookup(&self, meaning: &String) -> (r: Option<String>)
        requires
            self.wf(),
        ensures
            match r {
                Some(p) => self@.contains_key(meaning@) && self@[meaning@] == p@,
                None => !self@.contains_key(meaning@),
            },
    {
        let ghost s = self.entries.deep_view();
        let mut i: usize = 0;
        while i < self.entries.len()
            invariant
                s == self.entries.deep_view(),
                self.wf(),
                i <= self.entries@.len(),
                forall|j: int| 0 <= j < i ==> (#[trigger] s[j]).0 != meaning@,
            decreases self.entries@.len() - i,
        {
            assert(s[i as int] == (self.entries@[i as int].0@, self.entries@[i as int].1@));
            if self.entries[i].0.eq(meaning) {
                let path = self.entries[i].1.clone();
                proof {
                    lemma_map_of_entries(s, meaning@);
                    assert forall|j: int| i < j < s.len() implies (#[trigger] s[j]).0 != meaning@
                        by {}
                }
                return Some(path);
            }
            i = i + 1;
        }
        proof {
            lemma_map_of_entries(s, meaning@);
        }
        None
    }

    /// Records that a meaning refers to a path; the caller has already
    /// ruled out a conflict with a different path.
    fn insert_entry(&mut self, meaning: String, path: String)
        requires
            old(self).wf(),
            old(self)@.contains_key(meaning@) ==> old(self)@[meaning@] == path@,
        ensures
            final(self).wf(),
            final(self)@ == old(self)@.insert(meaning@, path@),
    {
        let ghost s = self.entries.deep_view();
        let present = match self.lookup(&meaning) {
            Some(_) => true,
            None => false,
        };
        if present {
            proof {
                assert(self@.insert(meaning@, path@) =~= self@);
            }
            return;
        }
        proof {
            lemma_map_of_entries(s, meaning@);
        }
        self.entries.push((meaning, path));
        proof {
            assert(self.entries.deep_view() =~= s.push((meaning@, path@)));
            assert(self.entries.deep_view().drop_last() =~= s);
            assert(self@ == map_of(s).insert(meaning@, path@));
            assert forall|i: int, j: int|
                0 <= i < j < self.entries.deep_view().len() implies self.entries.deep_view()[i].0
                != self.entries.deep_view()[j].0 by {
                if j == self.entries.deep_view().len() - 1 {
                    if s[i].0 == meaning@ {
                        assert(false);
                    }
                }
            }
        }
    }
}

/// The compile-time function that assigns a semantic meaning to one event
/// field path, refusing non-external or unknown targets and any attempt to
/// point one meaning at two different fields.
#[derive(Clone, Copy, Debug)]
pub struct SetSemanticMeaning;

impl SetSemanticMeaning {
    /// The name under which the script language knows this function.
    pub fn identifier(&self) -> (r: &'static str)
        ensures
            r@ == "set_semantic_meaning"@,
    {
        "set_semantic_meaning"
    }

    /// Compiles one assignment.  The embedding reports whether the target
    /// is an external field and whether it is known to exist; the meaning
    /// and path arrive as plain text.
    pub fn compile(
        &self,
        list: &mut MeaningList,
        target_is_external: bool,
        target_exists: bool,
        meaning: String,
        path: String,
    ) -> (r: Result<(), MeaningError>)
        requires
            old(list).wf(),
        ensures
            final(list).wf(),
            !target_is_external ==> r == Err::<(), MeaningError>(MeaningError::NonExternalTarget)
                && final(list)@ == old(list)@,
            target_is_external && !target_exists ==> r == Err::<(), MeaningError>(
                MeaningError::UnknownField,
            ) && final(list)@ == old(list)@,
            target_is_external && target_exists && old(list)@.contains_key(meaning@) && old(
                list,
            )@[meaning@] != path@ ==> r == Err::<(), MeaningError>(MeaningError::ConflictingMeaning)
                && final(list)@ == old(list)@,
            target_is_external && target_exists && (!old(list)@.contains_key(meaning@) || old(
                list,
            )@[meaning@] == path@) ==> r == Ok::<(), MeaningError>(()) && final(list)@ == old(
                list,
            )@.insert(meaning@, path@),
    {
        if !target_is_external {
            return Err(MeaningError::NonExternalTarget);
        }
        if !target_exists {
            return Err(MeaningError::UnknownField);
        }
        match list.lookup(&meaning) {
            Some(existing) => {
                if !existing.eq(&path) {
                    return Err(MeaningError::ConflictingMeaning);
                }
            },
            None => {},
        }
        list.insert_entry(meaning, path);
        Ok(())
    }
}

} // verus!
