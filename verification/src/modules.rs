use vstd::prelude::*;
use vstd::string::*;
use crate::consts::ConstMetadata;
use crate::decls::{ItemDecl, ModuleDecl};
use crate::enums::EnumMetadata;
use crate::functions::FunctionMetadata;
use crate::macros::MacroMetadata;
use crate::structs::StructMetadata;
use crate::traits::TraitMetadata;

verus! {

/// Mathematical model of a `ModuleMetadata` record: the declared names
/// collected per kind, in order of appearance, and the models of the
/// child records.
#[verifier::ext_equal]
pub struct ModuleModel {
    pub name: Seq<char>,
    pub consts: Seq<Seq<char>>,
    pub enums: Seq<Seq<char>>,
    pub functions: Seq<Seq<char>>,
    pub macros: Seq<Seq<char>>,
    pub structs: Seq<Seq<char>>,
    pub submodules: Seq<ModuleModel>,
    pub traits: Seq<Seq<char>>,
}

/// The model of a module that holds no items.
pub open spec fn empty_model(name: Seq<char>) -> ModuleModel {
    ModuleModel {
        name,
        consts: Seq::empty(),
        enums: Seq::empty(),
        functions: Seq::empty(),
        macros: Seq::empty(),
        structs: Seq::empty(),
        submodules: Seq::empty(),
        traits: Seq::empty(),
    }
}

/// What the metadata walk produces for a module named `name` with body
/// `items`: the declared name of every recognized item lands in the
/// bucket of its kind, each module child contributes one record, and a
/// nameless macro or a declaration kind the walk does not recognize
/// contributes nothing at all — the walk degrades gracefully instead of
/// failing.
pub open spec fn walk_model(name: Seq<char>, items: Seq<ItemDecl>) -> ModuleModel
    decreases items,
{
    if items.len() == 0 {
        empty_model(name)
    } else {
        let prev = walk_model(name, items.drop_last());
        match items.last() {
            ItemDecl::Const { name: n } => ModuleModel { consts: prev.consts.push(n@), ..prev },
            ItemDecl::Enum { name: n } => ModuleModel { enums: prev.enums.push(n@), ..prev },
            ItemDecl::Function { name: n } => ModuleModel {
                functions: prev.functions.push(n@),
                ..prev
            },
            ItemDecl::Macro { name: maybe } => match maybe {
                Some(n) => ModuleModel { macros: prev.macros.push(n@), ..prev },
                None => prev,
            },
            ItemDecl::Module(d) => ModuleModel {
                submodules: prev.submodules.push(submodule_model(d)),
                ..prev
            },
            ItemDecl::Struct { name: n } => ModuleModel { structs: prev.structs.push(n@), ..prev },
            ItemDecl::Trait { name: n } => ModuleModel { traits: prev.traits.push(n@), ..prev },
            ItemDecl::Unknown => prev,
        }
    }
}

/// The record a module child contributes to its parent: its walked body
/// when the body is inline; an empty, unnamed record when the body is
/// referenced, since its items live in another file that the driver
/// walks separately.
pub open spec fn submodule_model(d: ModuleDecl) -> ModuleModel
    decreases d,
{
    match d.body {
        Some(b) => walk_model(d.name@, b@),
        None => empty_model(Seq::empty()),
    }
}

/// Describes one module: the declarations found in its body, bucketed by
/// kind, and a record per module child.
pub struct ModuleMetadata {
    pub consts: Vec<ConstMetadata>,
    pub enums: Vec<EnumMetadata>,
    pub functions: Vec<FunctionMetadata>,
    pub macros: Vec<MacroMetadata>,
    pub name: String,
    pub structs: Vec<StructMetadata>,
    pub submodules: Vec<ModuleMetadata>,
    pub traits: Vec<TraitMetadata>,
}

/// The model of a metadata record: every bucket reduced to the names it
/// carries.
pub open spec fn module_model(m: ModuleMetadata) -> ModuleModel
    decreases m,
{
    ModuleModel {
        name: m.name@,
        consts: m.consts@.map_values(|x: ConstMetadata| x.name@),
        enums: m.enums@.map_values(|x: EnumMetadata| x.name@),
        functions: m.functions@.map_values(|x: FunctionMetadata| x.name@),
        macros: m.macros@.map_values(|x: MacroMetadata| x.name@),
        structs: m.structs@.map_values(|x: StructMetadata| x.name@),
        submodules: submodule_models(m.submodules@),
        traits: m.traits@.map_values(|x: TraitMetadata| x.name@),
    }
}

/// The models of a list of metadata records, in order.
pub open spec fn submodule_models(ms: Seq<ModuleMetadata>) -> Seq<ModuleModel>
    decreases ms,
{
    if ms.len() == 0 {
        Seq::empty()
    } else {
        submodule_models(ms.drop_last()).push(module_model(ms.last()))
    }
}

impl View for ModuleMetadata {
    type V = ModuleModel;

    open spec fn view(&self) -> ModuleModel {
        module_model(*self)
    }
}

impl Default for ModuleMetadata {
    /// A record of a module nothing is known about: no name, no items.
    fn default() -> (r: Self)
        ensures
            r@ == empty_model(Seq::empty()),
    {
        let r = ModuleMetadata {
            consts: Vec::new(),
            enums: Vec::new(),
            functions: Vec::new(),
            macros: Vec::new(),
            name: String::new(),
            structs: Vec::new(),
            submodules: Vec::new(),
            traits: Vec::new(),
        };
        proof {
            assert(r.submodules@ =~= Seq::<ModuleMetadata>::empty());
            assert(r@ =~= empty_model(Seq::empty()));
        }
        r
    }
}

impl ModuleMetadata {
    /// Walks the items of a module named `name` and buckets every
    /// recognized declaration by kind, skipping nameless macros and
    /// unrecognized declaration kinds, and recursing into the bodies of
    /// inline module children.
    pub fn new(name: String, items: &Vec<ItemDecl>) -> (r: Self)
        ensures
            r@ == walk_model(name@, items@),
        decreases items@,
    {
        let mut consts: Vec<ConstMetadata> = Vec::new();
        let mut enums: Vec<EnumMetadata> = Vec::new();
        let mut functions: Vec<FunctionMetadata> = Vec::new();
        let mut macros: Vec<MacroMetadata> = Vec::new();
        let mut structs: Vec<StructMetadata> = Vec::new();
        let mut submodules: Vec<ModuleMetadata> = Vec::new();
        let mut traits: Vec<TraitMetadata> = Vec::new();
        proof {
            assert(items@.take(0) =~= Seq::<ItemDecl>::empty());
            assert(consts@.map_values(|x: ConstMetadata| x.name@) =~= Seq::<Seq<char>>::empty());
            assert(enums@.map_values(|x: EnumMetadata| x.name@) =~= Seq::<Seq<char>>::empty());
            assert(functions@.map_values(|x: FunctionMetadata| x.name@) =~= Seq::<
                Seq<char>,
            >::empty());
            assert(macros@.map_values(|x: MacroMetadata| x.name@) =~= Seq::<Seq<char>>::empty());
            assert(structs@.map_values(|x: StructMetadata| x.name@) =~= Seq::<Seq<char>>::empty());
            assert(submodules@ =~= Seq::<ModuleMetadata>::empty());
            assert(traits@.map_values(|x: TraitMetadata| x.name@) =~= Seq::<Seq<char>>::empty());
        }
        let mut i: usize = 0;
        while i < items.len()
            invariant
                i <= items@.len(),
                walk_model(name@, items@.take(i as int)).name == name@,
                consts@.map_values(|x: ConstMetadata| x.name@) == walk_model(
                    name@,
                    items@.take(i as int),
                ).consts,
                enums@.map_values(|x: EnumMetadata| x.name@) == walk_model(
                    name@,
                    items@.take(i as int),
                ).enums,
                functions@.map_values(|x: FunctionMetadata| x.name@) == walk_model(
                    name@,
                    items@.take(i as int),
                ).functions,
                macros@.map_values(|x: MacroMetadata| x.name@) == walk_model(
                    name@,
                    items@.take(i as int),
                ).macros,
                structs@.map_values(|x: StructMetadata| x.name@) == walk_model(
                    name@,
                    items@.take(i as int),
                ).structs,
                submodule_models(submodules@) == walk_model(name@, items@.take(i as int)).submodules,
                traits@.map_values(|x: TraitMetadata| x.name@) == walk_model(
                    name@,
                    items@.take(i as int),
                ).traits,
            decreases items@.len() - i,
        {
            proof {
                assert(items@.take(i + 1).drop_last() =~= items@.take(i as int));
                assert(items@.take(i + 1).last() == items@[i as int]);
            }
            match &items[i] {
                ItemDecl::Const { name: n } => {
                    let ghost pre = consts@;
                    consts.push(ConstMetadata::new(n.clone()));
                    proof {
                        assert(consts@.map_values(|x: ConstMetadata| x.name@) =~= pre.map_values(
                            |x: ConstMetadata| x.name@,
                        ).push(n@));
                    }
                },
                ItemDecl::Enum { name: n } => {
                    let ghost pre = enums@;
                    enums.push(EnumMetadata::new(n.clone()));
                    proof {
                        assert(enums@.map_values(|x: EnumMetadata| x.name@) =~= pre.map_values(
                            |x: EnumMetadata| x.name@,
                        ).push(n@));
                    }
                },
                ItemDecl::Function { name: n } => {
                    let ghost pre = functions@;
                    functions.push(FunctionMetadata::new(n.clone()));
                    proof {
                        assert(functions@.map_values(|x: FunctionMetadata| x.name@)
                            =~= pre.map_values(|x: FunctionMetadata| x.name@).push(n@));
                    }
                },
                ItemDecl::Macro { name: maybe } => {
                    let owned: Option<String> = match maybe {
                        Some(n) => Some(n.clone()),
                        None => None,
                    };
                    match MacroMetadata::try_new(owned) {
                        Ok(mm) => {
                            let ghost pre = macros@;
                            let ghost pushed = mm.name@;
                            macros.push(mm);
                            proof {
                                assert(macros@.map_values(|x: MacroMetadata| x.name@)
                                    =~= pre.map_values(|x: MacroMetadata| x.name@).push(pushed));
                            }
                        },
                        Err(_) => {},
                    }
                },
                ItemDecl::Module(d) => {
                    let ghost pre = submodules@;
                    proof {
                        assert(decreases_to!(items@ => items@[i as int]));
                    }
                    let child = ModuleMetadata::from_decl(d);
                    submodules.push(child);
                    proof {
                        assert(submodules@.drop_last() =~= pre);
                        assert(submodule_models(submodules@) == submodule_models(pre).push(
                            module_model(submodules@.last()),
                        ));
                    }
                },
                ItemDecl::Struct { name: n } => {
                    let ghost pre = structs@;
                    structs.push(StructMetadata::new(n.clone()));
                    proof {
                        assert(structs@.map_values(|x: StructMetadata| x.name@) =~= pre.map_values(
                            |x: StructMetadata| x.name@,
                        ).push(n@));
                    }
                },
                ItemDecl::Trait { name: n } => {
                    let ghost pre = traits@;
                    traits.push(TraitMetadata::new(n.clone()));
                    proof {
                        assert(traits@.map_values(|x: TraitMetadata| x.name@) =~= pre.map_values(
                            |x: TraitMetadata| x.name@,
                        ).push(n@));
                    }
                },
                ItemDecl::Unknown => {},
            }
            i = i + 1;
        }
        proof {
            assert(items@.take(items@.len() as int) =~= items@);
        }
        let r = ModuleMetadata {
            consts,
            enums,
            functions,
            macros,
            name,
            structs,
            submodules,
            traits,
        };
        proof {
            assert(r@ =~= walk_model(r.name@, items@));
        }
        r
    }

    /// The record a module declaration contributes to its parent: the
    /// walked body when it is inline, the default record otherwise —
    /// a referenced body lives in another file, which the driver loads
    /// and walks on its own.
    pub fn from_decl(module_item: &ModuleDecl) -> (r: Self)
        ensures
            r@ == submodule_model(*module_item),
        decreases *module_item,
    {
        match &module_item.body {
            Some(b) => ModuleMetadata::new(module_item.name.clone(), b),
            None => ModuleMetadata::default(),
        }
    }

    /// The metadata of a whole parsed file: its items walked as the
    /// top-level module, which bears the crate's own name.
    pub fn from_file(items: &Vec<ItemDecl>) -> (r: Self)
        ensures
            r@ == walk_model("crate"@, items@),
    {
        ModuleMetadata::new(String::from_str("crate"), items)
    }
}

/// Law (unknown-declaration tolerance): inserting a declaration the walk
/// does not recognize — or a macro declaration without a name — at any
/// position in a module's items leaves the walk's result untouched:
/// every recognized sibling is still collected, and the skipped
/// declaration is simply absent.
pub proof fn lemma_unknown_tolerance(
    name: Seq<char>,
    before: Seq<ItemDecl>,
    item: ItemDecl,
    after: Seq<ItemDecl>,
)
    requires
        item is Unknown || (item matches ItemDecl::Macro { name: n } && n is None),
    ensures
        walk_model(name, before + seq![item] + after) == walk_model(name, before + after),
    decreases after.len(),
{
    if after.len() == 0 {
        assert(before + after =~= before);
        assert((before + seq![item] + after) =~= before + seq![item]);
        assert((before + seq![item]).drop_last() =~= before);
        assert((before + seq![item]).last() == item);
    } else {
        lemma_unknown_tolerance(name, before, item, after.drop_last());
        let s1 = before + seq![item] + after;
        let s2 = before + after;
        assert(s1.drop_last() =~= before + seq![item] + after.drop_last());
        assert(s2.drop_last() =~= before + after.drop_last());
        assert(s1.last() == after.last());
        assert(s2.last() == after.last());
    }
}

} // verus!
