use vstd::prelude::*;

verus! {

/// One alias binding: a short, locally visible identifier and the
/// fully-qualified identifier it stands for.
pub struct AliasEntry {
    pub short: String,
    pub full: String,
}

/// The map an entry list denotes: each entry binds its short name to its
/// fully-qualified name, and a later entry for the same short name wins.
pub open spec fn map_of(entries: Seq<AliasEntry>) -> Map<Seq<char>, Seq<char>>
    decreases entries.len(),
{
    if entries.len() == 0 {
        Map::empty()
    } else {
        map_of(entries.drop_last()).insert(entries.last().short@, entries.last().full@)
    }
}

/// A per-scope alias table. Entries are kept in registration order; a
/// later binding for a short name shadows an earlier one in the same
/// table, so the table denotes the map folded from its entries.
pub struct AliasTable {
    pub entries: Vec<AliasEntry>,
}

impl View for AliasTable {
    type V = Map<Seq<char>, Seq<char>>;

    open spec fn view(&self) -> Map<Seq<char>, Seq<char>> {
        map_of(self.entries@)
    }
}

/// Entries at positions `i` and above bind nothing for `k`, so the map
/// of the whole list agrees on `k` with the map of the first `i` entries.
proof fn lemma_map_of_unscanned(entries: Seq<AliasEntry>, i: int, k: Seq<char>)
    requires
        0 <= i <= entries.len(),
        forall|j: int| i <= j < entries.len() ==> entries[j].short@ != k,
    ensures
        map_of(entries).contains_key(k) == map_of(entries.take(i)).contains_key(k),
        map_of(entries).contains_key(k) ==> map_of(entries)[k] == map_of(entries.take(i))[k],
    decreases entries.len() - i,
{
    if i == entries.len() {
        assert(entries.take(i) =~= entries);
    } else {
        let shorter = entries.drop_last();
        assert(entries.last().short@ != k);
        assert(shorter.take(i) =~= entries.take(i));
        lemma_map_of_unscanned(shorter, i, k);
    }
}

impl AliasTable {
    /// An empty table.
    pub fn new() -> (r: Self)
        ensures
            r@ == Map::<Seq<char>, Seq<char>>::empty(),
    {
        let r = AliasTable { entries: Vec::new() };
        proof {
            assert(r.entries@ =~= Seq::<AliasEntry>::empty());
        }
        r
    }

    /// Looks up the fully-qualified name bound to `k` in this table.
    pub fn get(&self, k: &String) -> (r: Option<&String>)
        ensures
            match r {
                Some(v) => self@.contains_key(k@) && v@ == self@[k@],
                None => !self@.contains_key(k@),
            },
    {
        let mut i: usize = self.entries.len();
        while i > 0
            invariant
                i <= self.entries@.len(),
                forall|j: int| i <= j < self.entries@.len() ==> self.entries@[j].short@ != k@,
            decreases i,
        {
            i = i - 1;
            if self.entries[i].short == *k {
                proof {
                    assert(self.entries@.take(i + 1).last() == self.entries@[i as int]);
                    assert(self.entries@.take(i + 1).drop_last() =~= self.entries@.take(i as int));
                    lemma_map_of_unscanned(self.entries@, i + 1, k@);
                }
                return Some(&self.entries[i].full);
            }
        }
        proof {
            assert(self.entries@.take(0) =~= Seq::<AliasEntry>::empty());
            lemma_map_of_unscanned(self.entries@, 0, k@);
        }
        None
    }

    /// Binds `short` to `full`, returning the binding this one shadows
    /// within the table, if there was one.
    pub fn insert(&mut self, short: String, full: String) -> (prev: Option<String>)
        ensures
            final(self)@ == old(self)@.insert(short@, full@),
            match prev {
                Some(v) => old(self)@.contains_key(short@) && v@ == old(self)@[short@],
                None => !old(self)@.contains_key(short@),
            },
    {
        let prev = match self.get(&short) {
            Some(v) => Some(v.clone()),
            None => None,
        };
        self.entries.push(AliasEntry { short, full });
        proof {
            assert(self.entries@.drop_last() =~= old(self).entries@);
        }
        prev
    }
}

/// Whether a scope's module body is the top level of the root file,
/// written inline in its parent's file, or referenced in a separate file.
#[derive(Clone, Copy, Debug, PartialEq, Eq, Structural)]
pub enum ModuleKind {
    Root,
    Inline,
    Referenced,
}

/// Model of a scope: its kind and the map its alias table denotes.
#[verifier::ext_equal]
pub struct ScopeModel {
    pub kind: ModuleKind,
    pub aliases: Map<Seq<char>, Seq<char>>,
}

/// One lexical region, corresponding to exactly one module body, with
/// the aliases registered while visiting it.
pub struct Scope {
    pub kind: ModuleKind,
    pub aliases: AliasTable,
}

impl View for Scope {
    type V = ScopeModel;

    open spec fn view(&self) -> ScopeModel {
        ScopeModel { kind: self.kind, aliases: self.aliases@ }
    }
}

impl Scope {
    /// A fresh scope of the given kind with no aliases registered.
    pub fn new(kind: ModuleKind) -> (r: Self)
        ensures
            r@.kind == kind,
            r@.aliases == Map::<Seq<char>, Seq<char>>::empty(),
    {
        Scope { kind, aliases: AliasTable::new() }
    }
}

} // verus!
