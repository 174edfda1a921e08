use vstd::prelude::*;
use vstd::string::StringExecFns;

verus! {

/// One completed level: which pack and level it was, and the counters at
/// the moment of completion.
#[derive(Clone, Debug)]
pub struct LevelCompletion {
    pub pack: String,
    pub level: String,
    pub steps: i32,
    pub pushes: i32,
}

/// The combined key the completion table is indexed by: `pack:level`.
pub open spec fn completion_key(pack: Seq<char>, level: Seq<char>) -> Seq<char> {
    pack + seq![':'] + level
}

pub open spec fn entry_key(e: LevelCompletion) -> Seq<char> {
    completion_key(e.pack@, e.level@)
}

pub open spec fn entry_value(e: LevelCompletion) -> (int, int) {
    (e.steps as int, e.pushes as int)
}

/// The completion table as a map from combined key to counters; a later
/// entry with the same key wins.
pub open spec fn completions_map(entries: Seq<LevelCompletion>) -> Map<Seq<char>, (int, int)>
    decreases entries.len(),
{
    if entries.len() == 0 {
        Map::empty()
    } else {
        completions_map(entries.drop_last()).insert(
            entry_key(entries.last()),
            entry_value(entries.last()),
        )
    }
}

/// A key is in the table exactly when some entry carries it.
proof fn lemma_completions_map_contains(entries: Seq<LevelCompletion>, k: Seq<char>)
    ensures
        completions_map(entries).contains_key(k) <==> exists|i: int|
            0 <= i < entries.len() && entry_key(#[trigger] entries[i]) == k,
    decreases entries.len(),
{
    if entries.len() > 0 {
        let sub = entries.drop_last();
        lemma_completions_map_contains(sub, k);
        if entry_key(entries.last()) == k {
            assert(entries[entries.len() - 1] == entries.last());
        } else {
            if completions_map(entries).contains_key(k) {
                let i = choose|i: int| 0 <= i < sub.len() && entry_key(#[trigger] sub[i]) == k;
                assert(entries[i] == sub[i]);
            }
            if exists|i: int| 0 <= i < entries.len() && entry_key(#[trigger] entries[i]) == k {
                let i = choose|i: int|
                    0 <= i < entries.len() && entry_key(#[trigger] entries[i]) == k;
                assert(i < entries.len() - 1);
                assert(sub[i] == entries[i]);
            }
        }
    }
}

/// Overwriting the entry that carries a key updates the table at that key,
/// provided no two entries share a key.
proof fn lemma_completions_map_update(entries: Seq<LevelCompletion>, i: int, e: LevelCompletion)
    requires
        0 <= i < entries.len(),
        entry_key(entries[i]) == entry_key(e),
        forall|a: int, b: int|
            0 <= a < b < entries.len() ==> entry_key(#[trigger] entries[a]) != entry_key(
                #[trigger] entries[b],
            ),
    ensures
        completions_map(entries.update(i, e)) == completions_map(entries).insert(
            entry_key(e),
            entry_value(e),
        ),
    decreases entries.len(),
{
    let s2 = entries.update(i, e);
    let sub = entries.drop_last();
    if i == entries.len() - 1 {
        assert(s2.drop_last() =~= sub);
        assert(s2.last() == e);
        assert(completions_map(s2) =~= completions_map(entries).insert(
            entry_key(e),
            entry_value(e),
        ));
    } else {
        assert(s2.drop_last() =~= sub.update(i, e));
        assert(s2.last() == entries.last());
        assert(sub[i] == entries[i]);
        lemma_completions_map_update(sub, i, e);
        assert(entry_key(entries[i]) != entry_key(entries[entries.len() - 1]));
        assert(completions_map(s2) =~= completions_map(entries).insert(
            entry_key(e),
            entry_value(e),
        ));
    }
}

/// Mathematical content of a [`Save`]: the version string and the
/// completion table.
#[verifier::ext_equal]
pub ghost struct SaveView {
    pub version: Seq<char>,
    pub completions: Map<Seq<char>, (int, int)>,
}

/// Game completion progress: which levels were completed, keyed by
/// `pack:level`, each with the counters of the completing attempt. The
/// driver persists and restores it; this type only keeps the table.
#[derive(Clone, Debug)]
pub struct Save {
    pub game_version: String,
    pub level_completions: Vec<LevelCompletion>,
}

impl View for Save {
    type V = SaveView;

    open spec fn view(&self) -> SaveView {
        SaveView {
            version: self.game_version@,
            completions: completions_map(self.level_completions@),
        }
    }
}

impl Save {
    /// No two entries carry the same key; established at creation and
    /// preserved by [`Save::complete_level`].
    pub open spec fn wf(self) -> bool {
        forall|a: int, b: int|
            0 <= a < b < self.level_completions@.len() ==> entry_key(
                #[trigger] self.level_completions@[a],
            ) != entry_key(#[trigger] self.level_completions@[b])
    }

    /// An empty save for the given game version.
    pub fn new(game_version: String) -> (s: Save)
        ensures
            s.wf(),
            s@.version == game_version@,
            s@.completions == Map::<Seq<char>, (int, int)>::empty(),
    {
        Save { game_version, level_completions: Vec::new() }
    }

    /// The save key for one level of one pack: `pack:level`.
    pub fn level_completion_key(pack_slug: &String, level_title: &String) -> (r: String)
        ensures
            r@ == completion_key(pack_slug@, level_title@),
    {
        let mut r = pack_slug.clone();
        r.append(":");
        r.append(level_title.as_str());
        proof {
            reveal_strlit(":");
            assert(":"@ =~= seq![':']);
            assert(r@ =~= completion_key(pack_slug@, level_title@));
        }
        r
    }

    /// The index of the entry carrying `key`, if any.
    fn find_completion(&self, key: &String) -> (r: Option<usize>)
        ensures
            match r {
                Some(i) => i < self.level_completions@.len() && entry_key(
                    self.level_completions@[i as int],
                ) == key@,
                None => forall|j: int|
                    0 <= j < self.level_completions@.len() ==> entry_key(
                        #[trigger] self.level_completions@[j],
                    ) != key@,
            },
    {
        let mut i: usize = 0;
        while i < self.level_completions.len()
            invariant
                i <= self.level_completions@.len(),
                forall|j: int|
                    0 <= j < i as int ==> entry_key(#[trigger] self.level_completions@[j]) != key@,
            decreases self.level_completions@.len() - i,
        {
            let e = &self.level_completions[i];
            let ek = Self::level_completion_key(&e.pack, &e.level);
            if ek == *key {
                return Some(i);
            }
            i = i + 1;
        }
        None
    }

    /// Records that the level was completed with these counters, replacing
    /// any earlier record for the same pack and level.
    pub fn complete_level(&mut self, pack_slug: String, level_title: String, steps: i32, pushes: i32)
        requires
            old(self).wf(),
        ensures
            final(self).wf(),
            final(self)@.version == old(self)@.version,
            final(self)@.completions == old(self)@.completions.insert(
                completion_key(pack_slug@, level_title@),
                (steps as int, pushes as int),
            ),
    {
        let key = Self::level_completion_key(&pack_slug, &level_title);
        let found = self.find_completion(&key);
        let e = LevelCompletion { pack: pack_slug, level: level_title, steps, pushes };
        match found {
            Some(i) => {
                proof {
                    lemma_completions_map_update(self.level_completions@, i as int, e);
                }
                self.level_completions[i] = e;
            },
            None => {
                self.level_completions.push(e);
                proof {
                    assert(self.level_completions@.drop_last() =~= old(self).level_completions@);
                    assert(self.level_completions@.last() == e);
                }
            },
        }
    }

    /// Whether a completion is recorded for this pack and level.
    pub fn is_level_complete(&self, pack_slug: &String, level_title: &String) -> (r: bool)
        ensures
            r == self@.completions.contains_key(completion_key(pack_slug@, level_title@)),
    {
        let key = Self::level_completion_key(pack_slug, level_title);
        let found = self.find_completion(&key);
        proof {
            lemma_completions_map_contains(self.level_completions@, key@);
        }
        found.is_some()
    }
}

} // verus!
