use vstd::prelude::*;
use vstd::string::*;

verus! {

/// The canonical source-file extension of the host language.
pub open spec fn source_ext() -> Seq<char> {
    ".rs"@
}

/// Mathematical model of a `ModulePath`: the root file's path exactly as
/// it was given, and the chain of referenced-module names entered below
/// it, outermost first.
#[verifier::ext_equal]
pub struct PathModel {
    pub root: Seq<char>,
    pub chain: Seq<Seq<char>>,
}

/// Forward rule of the path mapper: entering a referenced child module
/// named `name` appends that name to the chain.
pub open spec fn enter_model(m: PathModel, name: Seq<char>) -> PathModel {
    PathModel { root: m.root, chain: m.chain.push(name) }
}

/// Inverse rule of the path mapper: exiting the innermost referenced
/// module drops its name from the chain.
pub open spec fn exit_model(m: PathModel) -> PathModel {
    PathModel { root: m.root, chain: m.chain.drop_last() }
}

/// A chain of module names joined with the directory separator.
pub open spec fn joined(names: Seq<Seq<char>>) -> Seq<char>
    decreases names.len(),
{
    if names.len() == 0 {
        Seq::empty()
    } else if names.len() == 1 {
        names[0]
    } else {
        joined(names.drop_last()) + "/"@ + names.last()
    }
}

/// The file a `PathModel` denotes. While no referenced module is active
/// the root file itself is current; otherwise every outer name of the
/// chain is a directory and the innermost name carries the canonical
/// extension. The root file's stem never becomes a directory: children
/// of the root live beside the root file, so a stem-less root is
/// addressable by child name alone.
pub open spec fn rendered(m: PathModel) -> Seq<char> {
    if m.chain.len() == 0 {
        m.root
    } else {
        joined(m.chain) + source_ext()
    }
}

/// The filesystem location of the file currently being visited, kept as
/// the root file plus the chain of referenced modules entered so far.
pub struct ModulePath {
    pub root: String,
    pub chain: Vec<String>,
}

impl View for ModulePath {
    type V = PathModel;

    open spec fn view(&self) -> PathModel {
        PathModel { root: self.root@, chain: self.chain@.map_values(|s: String| s@) }
    }
}

impl ModulePath {
    /// Starts at the root file of a tree; no referenced module is active.
    pub fn new(root: String) -> (r: Self)
        ensures
            r@.root == root@,
            r@.chain == Seq::<Seq<char>>::empty(),
    {
        let r = ModulePath { root, chain: Vec::new() };
        proof {
            assert(r@.chain =~= Seq::<Seq<char>>::empty());
        }
        r
    }

    /// Steps into the referenced child module `name`, applying the
    /// forward rule of the path mapper.
    pub fn enter(&mut self, name: String)
        ensures
            final(self)@ == enter_model(old(self)@, name@),
    {
        self.chain.push(name);
        proof {
            assert(self@.chain =~= old(self)@.chain.push(name@));
            assert(self@ =~= enter_model(old(self)@, name@));
        }
    }

    /// Steps back out to the parent file, applying the inverse rule of
    /// the path mapper.
    pub fn exit(&mut self)
        requires
            old(self)@.chain.len() > 0,
        ensures
            final(self)@ == exit_model(old(self)@),
    {
        self.chain.pop();
        proof {
            assert(self@.chain =~= old(self)@.chain.drop_last());
            assert(self@ =~= exit_model(old(self)@));
        }
    }

    /// How many referenced modules are currently active.
    pub fn depth(&self) -> (n: usize)
        ensures
            n == self@.chain.len(),
    {
        self.chain.len()
    }

    /// The file path this position denotes.
    pub fn to_file_path(&self) -> (r: String)
        ensures
            r@ == rendered(self@),
    {
        if self.chain.len() == 0 {
            return self.root.clone();
        }
        let mut out: String = self.chain[0].clone();
        proof {
            assert(self@.chain.take(1) =~= seq![self@.chain[0]]);
        }
        let mut i: usize = 1;
        while i < self.chain.len()
            invariant
                1 <= i <= self.chain@.len(),
                self@.chain.len() == self.chain@.len(),
                out@ == joined(self@.chain.take(i as int)),
            decreases self.chain@.len() - i,
        {
            out.append("/");
            out.append(self.chain[i].as_str());
            proof {
                assert(self@.chain.take(i as int + 1).drop_last() =~= self@.chain.take(
                    i as int,
                ));
                assert(self@.chain.take(i as int + 1).last() == self@.chain[i as int]);
            }
            i = i + 1;
        }
        proof {
            assert(self@.chain.take(self.chain@.len() as int) =~= self@.chain);
        }
        out.append(".rs");
        proof {
            assert(".rs"@ == source_ext());
        }
        out
    }
}

/// Law: the inverse rule of the path mapper undoes the forward rule
/// exactly, so stepping out of any referenced module just entered
/// recovers the position before the step, root file included.
pub proof fn lemma_path_round_trip(m: PathModel, name: Seq<char>)
    ensures
        exit_model(enter_model(m, name)) == m,
{
    assert(exit_model(enter_model(m, name)) =~= m);
}

} // verus!
