use modmeta::decls::{ItemDecl, ModuleDecl};
use modmeta::{MacroMetadata, ModuleMetadata};

#[test]
fn walk_buckets_every_recognized_kind() {
    let items = vec![
        ItemDecl::Const {
            name: String::from("LIMIT"),
        },
        ItemDecl::Enum {
            name: String::from("Mode"),
        },
        ItemDecl::Function {
            name: String::from("run"),
        },
        ItemDecl::Macro {
            name: Some(String::from("emit")),
        },
        ItemDecl::Struct {
            name: String::from("Config"),
        },
        ItemDecl::Trait {
            name: String::from("Backend"),
        },
    ];
    let m = ModuleMetadata::new(String::from("top"), &items);

    assert_eq!(m.name, "top");
    assert_eq!(m.consts.len(), 1);
    assert_eq!(m.consts[0].name, "LIMIT");
    assert_eq!(m.enums.len(), 1);
    assert_eq!(m.enums[0].name, "Mode");
    assert_eq!(m.functions.len(), 1);
    assert_eq!(m.functions[0].name, "run");
    assert_eq!(m.macros.len(), 1);
    assert_eq!(m.macros[0].name, "emit");
    assert_eq!(m.structs.len(), 1);
    assert_eq!(m.structs[0].name, "Config");
    assert_eq!(m.traits.len(), 1);
    assert_eq!(m.traits[0].name, "Backend");
    assert_eq!(m.submodules.len(), 0);
}

#[test]
fn unknown_declaration_is_skipped_siblings_survive() {
    let items = vec![
        ItemDecl::Const {
            name: String::from("A"),
        },
        ItemDecl::Unknown,
        ItemDecl::Struct {
            name: String::from("B"),
        },
    ];
    let m = ModuleMetadata::new(String::from("top"), &items);

    assert_eq!(m.consts.len(), 1);
    assert_eq!(m.consts[0].name, "A");
    assert_eq!(m.structs.len(), 1);
    assert_eq!(m.structs[0].name, "B");
    assert_eq!(m.enums.len(), 0);
    assert_eq!(m.functions.len(), 0);
    assert_eq!(m.macros.len(), 0);
    assert_eq!(m.submodules.len(), 0);
    assert_eq!(m.traits.len(), 0);
}

#[test]
fn nameless_macro_is_skipped() {
    let items = vec![
        ItemDecl::Macro { name: None },
        ItemDecl::Macro {
            name: Some(String::from("named")),
        },
    ];
    let m = ModuleMetadata::new(String::from("top"), &items);

    assert_eq!(m.macros.len(), 1);
    assert_eq!(m.macros[0].name, "named");
}

#[test]
fn try_new_rejects_nameless_macro() {
    assert!(MacroMetadata::try_new(None).is_err());
    let made = MacroMetadata::try_new(Some(String::from("m")));
    assert!(made.is_ok());
    assert_eq!(made.unwrap().name, "m");
}

#[test]
fn inline_children_are_walked_recursively() {
    let inner = ModuleDecl {
        name: String::from("inner"),
        body: Some(vec![
            ItemDecl::Function {
                name: String::from("f"),
            },
            ItemDecl::Module(ModuleDecl {
                name: String::from("deep"),
                body: Some(vec![ItemDecl::Const {
                    name: String::from("D"),
                }]),
            }),
        ]),
    };
    let items = vec![ItemDecl::Module(inner)];
    let m = ModuleMetadata::new(String::from("top"), &items);

    assert_eq!(m.submodules.len(), 1);
    let child = &m.submodules[0];
    assert_eq!(child.name, "inner");
    assert_eq!(child.functions.len(), 1);
    assert_eq!(child.functions[0].name, "f");
    assert_eq!(child.submodules.len(), 1);
    assert_eq!(child.submodules[0].name, "deep");
    assert_eq!(child.submodules[0].consts[0].name, "D");
}

#[test]
fn referenced_child_contributes_an_empty_record() {
    let items = vec![ItemDecl::Module(ModuleDecl {
        name: String::from("elsewhere"),
        body: None,
    })];
    let m = ModuleMetadata::new(String::from("top"), &items);

    assert_eq!(m.submodules.len(), 1);
    let child = &m.submodules[0];
    assert_eq!(child.name, "");
    assert_eq!(child.consts.len(), 0);
    assert_eq!(child.enums.len(), 0);
    assert_eq!(child.functions.len(), 0);
    assert_eq!(child.macros.len(), 0);
    assert_eq!(child.structs.len(), 0);
    assert_eq!(child.submodules.len(), 0);
    assert_eq!(child.traits.len(), 0);
}

#[test]
fn file_walk_names_the_top_module_crate() {
    let items = vec![ItemDecl::Function {
        name: String::from("main_helper"),
    }];
    let m = ModuleMetadata::from_file(&items);

    assert_eq!(m.name, "crate");
    assert_eq!(m.functions.len(), 1);
    assert_eq!(m.functions[0].name, "main_helper");
}
