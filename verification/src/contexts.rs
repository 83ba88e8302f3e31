use vstd::prelude::*;
use crate::decls::ModuleDecl;
use crate::paths::{ModulePath, PathModel, enter_model, exit_model, lemma_path_round_trip};
use crate::scopes::{Scope, ScopeModel, ModuleKind};

verus! {

/// The errors of the resolution engine. Failing to resolve an
/// identifier is not among them: an unknown name may legitimately refer
/// to something outside the resolved tree, so `try_to_resolve_ident`
/// reports it as an explicit `None`, never as an error.
#[derive(Clone, Copy, Debug, PartialEq, Eq, Structural)]
pub enum ResolutionError {
    /// `step_out` was called with no open scope: the caller failed to
    /// pair every enter with one exit.
    ScopeUnderflow,
}

/// Mathematical model of a resolution context.
#[verifier::ext_equal]
pub struct ContextModel {
    pub current_path: PathModel,
    pub base_scope: ScopeModel,
    pub scopes: Seq<ScopeModel>,
    pub fallback_to_root: bool,
}

/// How many scopes of a stack belong to referenced modules.
pub open spec fn referenced_count(scopes: Seq<ScopeModel>) -> nat
    decreases scopes.len(),
{
    if scopes.len() == 0 {
        0
    } else {
        referenced_count(scopes.drop_last()) + if scopes.last().kind is Referenced {
            1nat
        } else {
            0nat
        }
    }
}

/// Whether any scope of the stack belongs to a referenced module, that
/// is, whether the walk has left the root file.
pub open spec fn has_referenced(scopes: Seq<ScopeModel>) -> bool {
    exists|i: int| 0 <= i < scopes.len() && (#[trigger] scopes[i]).kind is Referenced
}

impl ContextModel {
    /// Well-formed: the chain of the current path holds exactly the
    /// referenced modules open on the stack, the base scope is the root
    /// scope, and no stacked scope is a root scope.
    pub open spec fn wf(self) -> bool {
        &&& referenced_count(self.scopes) == self.current_path.chain.len()
        &&& self.base_scope.kind is Root
        &&& forall|i: int| 0 <= i < self.scopes.len() ==> !((#[trigger] self.scopes[i]).kind is Root)
    }
}

/// The effect of entering a module named `name` on the model: a fresh
/// scope of the module's kind on top of the stack, and, for a referenced
/// module, the current path stepped into the child file.
pub open spec fn step_into_model(m: ContextModel, name: Seq<char>, inline: bool) -> ContextModel {
    ContextModel {
        current_path: if inline {
            m.current_path
        } else {
            enter_model(m.current_path, name)
        },
        base_scope: m.base_scope,
        scopes: m.scopes.push(
            ScopeModel {
                kind: if inline {
                    ModuleKind::Inline
                } else {
                    ModuleKind::Referenced
                },
                aliases: Map::empty(),
            },
        ),
        fallback_to_root: m.fallback_to_root,
    }
}

/// The effect of leaving the innermost scope on the model: the scope is
/// popped and, when it belonged to a referenced module, the current path
/// steps back to the parent file. Meaningful only on a non-empty stack.
pub open spec fn step_out_model(m: ContextModel) -> ContextModel {
    ContextModel {
        current_path: if m.scopes.last().kind is Referenced {
            exit_model(m.current_path)
        } else {
            m.current_path
        },
        base_scope: m.base_scope,
        scopes: m.scopes.drop_last(),
        fallback_to_root: m.fallback_to_root,
    }
}

/// The alias table that a registration lands in: the innermost open
/// scope, or the base scope while no module scope is open.
pub open spec fn innermost_aliases(m: ContextModel) -> Map<Seq<char>, Seq<char>> {
    if m.scopes.len() == 0 {
        m.base_scope.aliases
    } else {
        m.scopes.last().aliases
    }
}

/// The effect of registering the alias `k -> v` on the model: the
/// binding is added to the innermost open scope, or to the base scope
/// while no module scope is open.
pub open spec fn registered_model(m: ContextModel, k: Seq<char>, v: Seq<char>) -> ContextModel {
    if m.scopes.len() == 0 {
        ContextModel {
            current_path: m.current_path,
            base_scope: ScopeModel {
                kind: m.base_scope.kind,
                aliases: m.base_scope.aliases.insert(k, v),
            },
            scopes: m.scopes,
            fallback_to_root: m.fallback_to_root,
        }
    } else {
        ContextModel {
            current_path: m.current_path,
            base_scope: m.base_scope,
            scopes: m.scopes.update(
                m.scopes.len() - 1,
                ScopeModel {
                    kind: m.scopes.last().kind,
                    aliases: m.scopes.last().aliases.insert(k, v),
                },
            ),
            fallback_to_root: m.fallback_to_root,
        }
    }
}

/// The first binding for `k` found scanning a scope stack innermost to
/// outermost.
pub open spec fn resolve_in_scopes(scopes: Seq<ScopeModel>, k: Seq<char>) -> Option<Seq<char>>
    decreases scopes.len(),
{
    if scopes.len() == 0 {
        None
    } else if scopes.last().aliases.contains_key(k) {
        Some(scopes.last().aliases[k])
    } else {
        resolve_in_scopes(scopes.drop_last(), k)
    }
}

/// What resolution returns: the innermost binding for `k`; when no open
/// scope binds it, the base scope's binding — provided base fallback is
/// on, or the walk has not left the root file; otherwise nothing.
pub open spec fn resolve_model(m: ContextModel, k: Seq<char>) -> Option<Seq<char>> {
    match resolve_in_scopes(m.scopes, k) {
        Some(v) => Some(v),
        None => {
            if (m.fallback_to_root || !has_referenced(m.scopes)) && m.base_scope.aliases.contains_key(k) {
                Some(m.base_scope.aliases[k])
            } else {
                None
            }
        },
    }
}

/// Process-scoped state for one resolution pass over a tree rooted at a
/// single top-level file: the location of the file currently being
/// visited, the always-present root scope, and the stack of scopes of
/// the modules currently open, innermost last.
pub struct Context {
    pub current_path: ModulePath,
    pub base_scope: Scope,
    pub scopes: Vec<Scope>,
    pub fallback_to_root: bool,
}

impl View for Context {
    type V = ContextModel;

    open spec fn view(&self) -> ContextModel {
        ContextModel {
            current_path: self.current_path@,
            base_scope: self.base_scope@,
            scopes: self.scopes@.map_values(|s: Scope| s@),
            fallback_to_root: self.fallback_to_root,
        }
    }
}

impl Context {
    /// A fresh context for the tree rooted at `root_path`, with base
    /// fallback on: identifiers registered in the root scope stay
    /// visible from referenced files. This is the default choice; see
    /// `with_fallback` for the other behaviour.
    pub fn new(root_path: String) -> (r: Self)
        ensures
            r@ == (ContextModel {
                current_path: PathModel { root: root_path@, chain: Seq::empty() },
                base_scope: ScopeModel { kind: ModuleKind::Root, aliases: Map::empty() },
                scopes: Seq::empty(),
                fallback_to_root: true,
            }),
            r@.wf(),
    {
        Self::with_fallback(root_path, true)
    }

    /// A fresh context with the base-fallback behaviour chosen by the
    /// caller: with `fallback_to_root` off, the base scope takes part in
    /// resolution only while the walk is still inside the root file.
    pub fn with_fallback(root_path: String, fallback_to_root: bool) -> (r: Self)
        ensures
            r@ == (ContextModel {
                current_path: PathModel { root: root_path@, chain: Seq::empty() },
                base_scope: ScopeModel { kind: ModuleKind::Root, aliases: Map::empty() },
                scopes: Seq::empty(),
                fallback_to_root,
            }),
            r@.wf(),
    {
        let r = Context {
            current_path: ModulePath::new(root_path),
            base_scope: Scope::new(ModuleKind::Root),
            scopes: Vec::new(),
            fallback_to_root,
        };
        proof {
            assert(r.scopes@.map_values(|s: Scope| s@) =~= Seq::<ScopeModel>::empty());
            assert(r@ =~= ContextModel {
                current_path: PathModel { root: r.current_path.root@, chain: Seq::empty() },
                base_scope: ScopeModel { kind: ModuleKind::Root, aliases: Map::empty() },
                scopes: Seq::empty(),
                fallback_to_root,
            });
        }
        r
    }

    /// Moves the current path to the named submodule's file, by the
    /// forward rule of the path mapper.
    pub fn move_to_submodule(&mut self, module_name: &str)
        ensures
            final(self)@ == (ContextModel {
                current_path: enter_model(old(self)@.current_path, module_name@),
                ..old(self)@
            }),
    {
        self.current_path.enter(module_name.to_owned());
    }

    /// Moves the current path back to the parent module's file, by the
    /// inverse rule of the path mapper.
    pub fn move_to_super_module(&mut self)
        requires
            old(self)@.current_path.chain.len() > 0,
        ensures
            final(self)@ == (ContextModel {
                current_path: exit_model(old(self)@.current_path),
                ..old(self)@
            }),
    {
        self.current_path.exit();
    }

    /// Enters a module: for a module whose body lives in a separate file
    /// the current path steps into that file first; then a fresh scope
    /// of the module's kind is pushed.
    pub fn step_into(&mut self, module_item: &ModuleDecl)
        ensures
            final(self)@ == step_into_model(old(self)@, module_item.name@, module_item.is_inline()),
            old(self)@.wf() ==> final(self)@.wf(),
    {
        let kind = if module_item.body.is_some() {
            ModuleKind::Inline
        } else {
            self.current_path.enter(module_item.name.clone());
            ModuleKind::Referenced
        };
        let scope = Scope::new(kind);
        self.scopes.push(scope);
        proof {
            let prior = old(self)@;
            assert(self.scopes@.map_values(|s: Scope| s@) =~= prior.scopes.push(
                ScopeModel {
                    kind: if module_item.is_inline() {
                        ModuleKind::Inline
                    } else {
                        ModuleKind::Referenced
                    },
                    aliases: Map::empty(),
                },
            ));
            assert(self@ =~= step_into_model(prior, module_item.name@, module_item.is_inline()));
            assert(self@.scopes.drop_last() =~= prior.scopes);
            if prior.wf() {
                assert(referenced_count(self@.scopes) == self@.current_path.chain.len());
                assert forall|i: int| 0 <= i < self@.scopes.len() implies !((#[trigger] self@.scopes[i]).kind
                    is Root) by {
                    if i < prior.scopes.len() {
                        assert(self@.scopes[i] == prior.scopes[i]);
                    }
                }
            }
        }
    }

    /// Leaves the innermost scope. When that scope belonged to a
    /// referenced module, the current path steps back to the parent
    /// file. An unmatched call — no scope is open — is a violation of
    /// the caller's walk pairing and fails with `ScopeUnderflow`,
    /// leaving the context untouched.
    pub fn step_out(&mut self) -> (r: Result<(), ResolutionError>)
        requires
            old(self)@.wf(),
        ensures
            final(self)@.wf(),
            old(self)@.scopes.len() == 0 ==> r == Err::<(), ResolutionError>(
                ResolutionError::ScopeUnderflow,
            ) && final(self)@ == old(self)@,
            old(self)@.scopes.len() > 0 ==> r == Ok::<(), ResolutionError>(()) && final(self)@
                == step_out_model(old(self)@),
    {
        match self.scopes.pop() {
            None => {
                proof {
                    assert(self@ =~= old(self)@);
                }
                Err(ResolutionError::ScopeUnderflow)
            },
            Some(scope) => {
                proof {
                    let prior = old(self)@;
                    assert(scope@ == prior.scopes.last());
                    assert(self.scopes@.map_values(|s: Scope| s@) =~= prior.scopes.drop_last());
                    if prior.scopes.last().kind is Referenced {
                        assert(referenced_count(prior.scopes) == referenced_count(
                            prior.scopes.drop_last(),
                        ) + 1);
                    }
                }
                match scope.kind {
                    ModuleKind::Referenced => {
                        self.current_path.exit();
                    },
                    _ => {},
                }
                proof {
                    let prior = old(self)@;
                    assert(self@ =~= step_out_model(prior));
                    assert forall|i: int| 0 <= i < self@.scopes.len() implies !((
                    #[trigger] self@.scopes[i]).kind is Root) by {
                        assert(self@.scopes[i] == prior.scopes[i]);
                    }
                }
                Ok(())
            },
        }
    }

    /// Registers an identifier alias within the innermost open scope —
    /// the base scope while no module scope is open — and returns the
    /// binding it shadows in that same scope, if any. Shadowing within a
    /// scope is legal; callers may treat the returned binding as a
    /// warning.
    pub fn register_identifier(&mut self, short_ident: String, full_ident: String) -> (prev: Option<
        String,
    >)
        ensures
            final(self)@ == registered_model(old(self)@, short_ident@, full_ident@),
            match prev {
                Some(v) => innermost_aliases(old(self)@).contains_key(short_ident@) && v@
                    == innermost_aliases(old(self)@)[short_ident@],
                None => !innermost_aliases(old(self)@).contains_key(short_ident@),
            },
            old(self)@.wf() ==> final(self)@.wf(),
    {
        if self.scopes.len() == 0 {
            let prev = self.base_scope.aliases.insert(short_ident, full_ident);
            proof {
                assert(self@ =~= registered_model(old(self)@, short_ident@, full_ident@));
            }
            prev
        } else {
            let mut scope = self.scopes.pop().unwrap();
            let prev = scope.aliases.insert(short_ident, full_ident);
            self.scopes.push(scope);
            proof {
                let prior = old(self)@;
                let n = prior.scopes.len();
                assert(self.scopes@.map_values(|s: Scope| s@) =~= prior.scopes.update(
                    n - 1,
                    ScopeModel {
                        kind: prior.scopes.last().kind,
                        aliases: prior.scopes.last().aliases.insert(short_ident@, full_ident@),
                    },
                ));
                assert(self@ =~= registered_model(prior, short_ident@, full_ident@));
                if prior.wf() {
                    assert(self@.scopes.drop_last() =~= prior.scopes.drop_last());
                    assert(referenced_count(self@.scopes) == referenced_count(prior.scopes));
                    assert forall|i: int| 0 <= i < self@.scopes.len() implies !((
                    #[trigger] self@.scopes[i]).kind is Root) by {
                        assert(self@.scopes[i].kind == prior.scopes[i].kind);
                    }
                }
            }
            prev
        }
    }

    /// Whether any open scope belongs to a referenced module.
    fn has_referenced_scope(&self) -> (r: bool)
        ensures
            r == has_referenced(self@.scopes),
    {
        let mut i: usize = 0;
        while i < self.scopes.len()
            invariant
                i <= self.scopes@.len(),
                forall|j: int| 0 <= j < i ==> !((#[trigger] self@.scopes[j]).kind is Referenced),
            decreases self.scopes@.len() - i,
        {
            match self.scopes[i].kind {
                ModuleKind::Referenced => {
                    proof {
                        assert(self@.scopes[i as int].kind is Referenced);
                    }
                    return true;
                },
                _ => {},
            }
            i = i + 1;
        }
        false
    }

    /// Looks up the fully-qualified form of an identifier in the current
    /// context: the nearest enclosing scope wins, with the base scope as
    /// the single fallback where that applies. A name no active scope
    /// nor the base scope binds is reported as `None` — unresolved, not
    /// an error.
    pub fn try_to_resolve_ident(&self, ident: &String) -> (r: Option<&String>)
        ensures
            match r {
                Some(v) => resolve_model(self@, ident@) == Some(v@),
                None => resolve_model(self@, ident@) is None,
            },
    {
        proof {
            assert(self@.scopes.take(self.scopes@.len() as int) =~= self@.scopes);
        }
        let mut i: usize = self.scopes.len();
        while i > 0
            invariant
                i <= self.scopes@.len(),
                resolve_in_scopes(self@.scopes, ident@) == resolve_in_scopes(
                    self@.scopes.take(i as int),
                    ident@,
                ),
            decreases i,
        {
            i = i - 1;
            proof {
                assert(self@.scopes.take(i as int + 1).last() == self@.scopes[i as int]);
                assert(self@.scopes.take(i as int + 1).drop_last() =~= self@.scopes.take(i as int));
            }
            match self.scopes[i].aliases.get(ident) {
                Some(v) => {
                    return Some(v);
                },
                None => {},
            }
        }
        proof {
            assert(self@.scopes.take(0) =~= Seq::<ScopeModel>::empty());
        }
        if self.fallback_to_root || !self.has_referenced_scope() {
            self.base_scope.aliases.get(ident)
        } else {
            None
        }
    }
}

/// No scope of the stack binds `k`, so the innermost-to-outermost scan
/// finds nothing.
proof fn lemma_resolve_none_when_unbound(scopes: Seq<ScopeModel>, k: Seq<char>)
    requires
        forall|i: int| 0 <= i < scopes.len() ==> !(#[trigger] scopes[i]).aliases.contains_key(k),
    ensures
        resolve_in_scopes(scopes, k) is None,
    decreases scopes.len(),
{
    if scopes.len() > 0 {
        lemma_resolve_none_when_unbound(scopes.drop_last(), k);
    }
}

/// One step of the module walk as the scope stack sees it: the driver
/// either enters a module — of the given name, inline or referenced —
/// or exits the innermost one.
pub enum ScopeOp {
    Enter { name: Seq<char>, inline: bool },
    Exit,
}

/// How many steps of a walk enter a module.
pub open spec fn enter_count(ops: Seq<ScopeOp>) -> nat
    decreases ops.len(),
{
    if ops.len() == 0 {
        0
    } else {
        (match ops.first() {
            ScopeOp::Enter { .. } => 1nat,
            ScopeOp::Exit => 0nat,
        }) + enter_count(ops.drop_first())
    }
}

/// How many steps of a walk exit a module.
pub open spec fn exit_count(ops: Seq<ScopeOp>) -> nat
    decreases ops.len(),
{
    if ops.len() == 0 {
        0
    } else {
        (match ops.first() {
            ScopeOp::Enter { .. } => 0nat,
            ScopeOp::Exit => 1nat,
        }) + exit_count(ops.drop_first())
    }
}

/// Runs a sequence of enter and exit steps on a context model. `None`
/// means some exit step found no open scope — the situation `step_out`
/// reports as `ScopeUnderflow`.
pub open spec fn run_model(m: ContextModel, ops: Seq<ScopeOp>) -> Option<ContextModel>
    decreases ops.len(),
{
    if ops.len() == 0 {
        Some(m)
    } else {
        match ops.first() {
            ScopeOp::Enter { name, inline } => run_model(
                step_into_model(m, name, inline),
                ops.drop_first(),
            ),
            ScopeOp::Exit => if m.scopes.len() == 0 {
                None
            } else {
                run_model(step_out_model(m), ops.drop_first())
            },
        }
    }
}

/// Some prefix of the walk exits more scopes than were open before it.
pub open spec fn underflows(depth: nat, ops: Seq<ScopeOp>) -> bool {
    exists|i: int|
        0 <= i <= ops.len() && depth + enter_count(#[trigger] ops.take(i)) < exit_count(
            ops.take(i),
        )
}

/// Splits the step counts of a non-empty prefix into the first step and
/// the rest.
proof fn lemma_counts_of_take(ops: Seq<ScopeOp>, i: int)
    requires
        1 <= i <= ops.len(),
    ensures
        enter_count(ops.take(i)) == (match ops.first() {
            ScopeOp::Enter { .. } => 1nat,
            ScopeOp::Exit => 0nat,
        }) + enter_count(ops.drop_first().take(i - 1)),
        exit_count(ops.take(i)) == (match ops.first() {
            ScopeOp::Enter { .. } => 0nat,
            ScopeOp::Exit => 1nat,
        }) + exit_count(ops.drop_first().take(i - 1)),
{
    assert(ops.take(i).first() == ops.first());
    assert(ops.take(i).drop_first() =~= ops.drop_first().take(i - 1));
}

/// Law (scope balance): however enter and exit steps interleave, the
/// scope stack's depth never goes below zero — an exit with no open
/// scope is the explicit underflow outcome instead. A walk that does not
/// underflow ends with the depth it started at plus the entered minus
/// the exited scopes: the number of unmatched enters. And a walk
/// underflows exactly when some prefix of it exits more scopes than were
/// open before it — one exit-module too many.
pub proof fn lemma_scope_balance(m: ContextModel, ops: Seq<ScopeOp>)
    ensures
        (run_model(m, ops) matches Some(m2) ==> m2.scopes.len() + exit_count(ops)
            == m.scopes.len() + enter_count(ops)),
        run_model(m, ops) is None <==> underflows(m.scopes.len(), ops),
    decreases ops.len(),
{
    let depth = m.scopes.len();
    if ops.len() == 0 {
        assert(!underflows(depth, ops)) by {
            assert forall|i: int|
                0 <= i <= ops.len() implies !(depth + enter_count(ops.take(i)) < exit_count(
                ops.take(i),
            )) by {
                assert(ops.take(i) =~= ops);
            }
        }
    } else {
        let rest = ops.drop_first();
        match ops.first() {
            ScopeOp::Enter { name, inline } => {
                let m1 = step_into_model(m, name, inline);
                assert(m1.scopes.len() == depth + 1);
                lemma_scope_balance(m1, rest);
                assert(underflows(depth, ops) <==> underflows(depth + 1, rest)) by {
                    if underflows(depth, ops) {
                        let i = choose|i: int|
                            0 <= i <= ops.len() && depth + enter_count(#[trigger] ops.take(i))
                                < exit_count(ops.take(i));
                        assert(ops.take(0) =~= Seq::<ScopeOp>::empty());
                        assert(i >= 1);
                        lemma_counts_of_take(ops, i);
                        assert(depth + 1 + enter_count(rest.take(i - 1)) < exit_count(
                            rest.take(i - 1),
                        ));
                    }
                    if underflows(depth + 1, rest) {
                        let j = choose|j: int|
                            0 <= j <= rest.len() && depth + 1 + enter_count(#[trigger] rest.take(j))
                                < exit_count(rest.take(j));
                        lemma_counts_of_take(ops, j + 1);
                        assert(depth + enter_count(ops.take(j + 1)) < exit_count(ops.take(j + 1)));
                    }
                }
            },
            ScopeOp::Exit => {
                if depth == 0 {
                    assert(run_model(m, ops) is None);
                    assert(underflows(depth, ops)) by {
                        lemma_counts_of_take(ops, 1);
                        assert(rest.take(0) =~= Seq::<ScopeOp>::empty());
                        assert(depth + enter_count(ops.take(1)) < exit_count(ops.take(1)));
                    }
                } else {
                    let m1 = step_out_model(m);
                    assert(m1.scopes.len() == depth - 1);
                    lemma_scope_balance(m1, rest);
                    assert(underflows(depth, ops) <==> underflows((depth - 1) as nat, rest)) by {
                        if underflows(depth, ops) {
                            let i = choose|i: int|
                                0 <= i <= ops.len() && depth + enter_count(#[trigger] ops.take(i))
                                    < exit_count(ops.take(i));
                            assert(ops.take(0) =~= Seq::<ScopeOp>::empty());
                            assert(i >= 1);
                            lemma_counts_of_take(ops, i);
                            assert(depth - 1 + enter_count(rest.take(i - 1)) < exit_count(
                                rest.take(i - 1),
                            ));
                        }
                        if underflows((depth - 1) as nat, rest) {
                            let j = choose|j: int|
                                0 <= j <= rest.len() && depth - 1 + enter_count(
                                    #[trigger] rest.take(j),
                                ) < exit_count(rest.take(j));
                            lemma_counts_of_take(ops, j + 1);
                            assert(depth + enter_count(ops.take(j + 1)) < exit_count(
                                ops.take(j + 1),
                            ));
                        }
                    }
                }
            },
        }
    }
}

/// Law (shadowing): entering any module and registering `k -> v` there
/// makes `k` resolve to `v`, whatever any outer scope or the base scope
/// binds; and leaving that module restores the context — and with it
/// every resolution — exactly as it was.
pub proof fn lemma_shadowing(
    m: ContextModel,
    name: Seq<char>,
    inline: bool,
    k: Seq<char>,
    v: Seq<char>,
)
    ensures
        ({
            let registered = registered_model(step_into_model(m, name, inline), k, v);
            &&& resolve_model(registered, k) == Some(v)
            &&& step_out_model(registered) == m
        }),
{
    let entered = step_into_model(m, name, inline);
    let registered = registered_model(entered, k, v);
    assert(registered.scopes.last().aliases == Map::<Seq<char>, Seq<char>>::empty().insert(k, v));
    assert(registered.scopes.last().aliases.contains_key(k));
    assert(resolve_in_scopes(registered.scopes, k) == Some(v));
    assert(registered.scopes.drop_last() =~= m.scopes);
    if !inline {
        lemma_path_round_trip(m.current_path, name);
    }
    assert(step_out_model(registered) =~= m);
}

/// Law (root fallback): an identifier bound in the base scope resolves
/// to that binding from any nesting depth, as long as no open scope
/// shadows it and the base scope takes part — because base fallback is
/// on, or the walk has not left the root file.
pub proof fn lemma_root_fallback(m: ContextModel, k: Seq<char>)
    requires
        forall|i: int| 0 <= i < m.scopes.len() ==> !(#[trigger] m.scopes[i]).aliases.contains_key(k),
        m.fallback_to_root || !has_referenced(m.scopes),
        m.base_scope.aliases.contains_key(k),
    ensures
        resolve_model(m, k) == Some(m.base_scope.aliases[k]),
{
    lemma_resolve_none_when_unbound(m.scopes, k);
}

/// Law (unresolved identifiers): a name that no open scope and not even
/// the base scope binds has no qualified form: resolution yields the
/// explicit unresolved outcome, never a fabricated path.
pub proof fn lemma_unresolved(m: ContextModel, k: Seq<char>)
    requires
        forall|i: int| 0 <= i < m.scopes.len() ==> !(#[trigger] m.scopes[i]).aliases.contains_key(k),
        !m.base_scope.aliases.contains_key(k),
    ensures
        resolve_model(m, k) is None,
{
    lemma_resolve_none_when_unbound(m.scopes, k);
}

} // verus!
