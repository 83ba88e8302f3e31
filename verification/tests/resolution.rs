use modmeta::contexts::{Context, ResolutionError};
use modmeta::decls::ModuleDecl;

fn inline_module(name: &str) -> ModuleDecl {
    ModuleDecl {
        name: String::from(name),
        body: Some(Vec::new()),
    }
}

fn referenced_module(name: &str) -> ModuleDecl {
    ModuleDecl {
        name: String::from(name),
        body: None,
    }
}

#[test]
fn shadowing_inner_scope_wins_until_exited() {
    let mut ctx = Context::new(String::from("lib.rs"));
    let outer = inline_module("outer");
    let inner = inline_module("inner");

    ctx.step_into(&outer);
    ctx.register_identifier(String::from("x"), String::from("a::b::x"));

    ctx.step_into(&inner);
    ctx.register_identifier(String::from("x"), String::from("a::c::x"));
    assert_eq!(
        ctx.try_to_resolve_ident(&String::from("x")),
        Some(&String::from("a::c::x"))
    );

    assert_eq!(ctx.step_out(), Ok(()));
    assert_eq!(
        ctx.try_to_resolve_ident(&String::from("x")),
        Some(&String::from("a::b::x"))
    );
}

#[test]
fn register_reports_shadowing_within_scope() {
    let mut ctx = Context::new(String::from("lib.rs"));
    assert_eq!(
        ctx.register_identifier(String::from("x"), String::from("a::x")),
        None
    );
    assert_eq!(
        ctx.register_identifier(String::from("x"), String::from("b::x")),
        Some(String::from("a::x"))
    );
    assert_eq!(
        ctx.try_to_resolve_ident(&String::from("x")),
        Some(&String::from("b::x"))
    );
}

#[test]
fn base_scope_binding_reachable_from_any_depth() {
    let mut ctx = Context::new(String::from("lib.rs"));
    ctx.register_identifier(String::from("g"), String::from("crate::g"));

    ctx.step_into(&referenced_module("foo"));
    ctx.step_into(&inline_module("bar"));
    ctx.step_into(&referenced_module("baz"));

    assert_eq!(
        ctx.try_to_resolve_ident(&String::from("g")),
        Some(&String::from("crate::g"))
    );
}

#[test]
fn base_fallback_off_stops_at_referenced_files() {
    let mut ctx = Context::with_fallback(String::from("lib.rs"), false);
    ctx.register_identifier(String::from("g"), String::from("crate::g"));

    // Inside an inline module of the root file the base scope still
    // takes part in resolution.
    ctx.step_into(&inline_module("bar"));
    assert_eq!(
        ctx.try_to_resolve_ident(&String::from("g")),
        Some(&String::from("crate::g"))
    );

    // Once the walk has left the root file, it does not.
    ctx.step_into(&referenced_module("foo"));
    assert_eq!(ctx.try_to_resolve_ident(&String::from("g")), None);
}

#[test]
fn unregistered_name_is_explicitly_unresolved() {
    let mut ctx = Context::new(String::from("lib.rs"));
    ctx.register_identifier(String::from("x"), String::from("a::x"));
    ctx.step_into(&inline_module("m"));
    ctx.register_identifier(String::from("y"), String::from("a::y"));

    assert_eq!(ctx.try_to_resolve_ident(&String::from("never")), None);
}

#[test]
fn scope_depth_tracks_unmatched_enters() {
    let mut ctx = Context::new(String::from("lib.rs"));
    assert_eq!(ctx.scopes.len(), 0);

    ctx.step_into(&inline_module("a"));
    ctx.step_into(&referenced_module("b"));
    ctx.step_into(&inline_module("c"));
    assert_eq!(ctx.scopes.len(), 3);

    assert_eq!(ctx.step_out(), Ok(()));
    assert_eq!(ctx.scopes.len(), 2);

    ctx.step_into(&inline_module("d"));
    assert_eq!(ctx.scopes.len(), 3);

    assert_eq!(ctx.step_out(), Ok(()));
    assert_eq!(ctx.step_out(), Ok(()));
    assert_eq!(ctx.step_out(), Ok(()));
    assert_eq!(ctx.scopes.len(), 0);
}

#[test]
fn extra_exit_reports_scope_underflow() {
    let mut ctx = Context::new(String::from("lib.rs"));
    ctx.step_into(&inline_module("a"));
    assert_eq!(ctx.step_out(), Ok(()));
    assert_eq!(ctx.step_out(), Err(ResolutionError::ScopeUnderflow));
}

#[test]
fn referenced_modules_move_the_current_path() {
    let mut ctx = Context::new(String::from("lib.rs"));
    ctx.step_into(&referenced_module("foo"));
    // An inline module opens a scope but stays in the same file.
    ctx.step_into(&inline_module("helpers"));
    ctx.step_into(&referenced_module("bar"));
    assert_eq!(ctx.current_path.to_file_path(), String::from("foo/bar.rs"));

    assert_eq!(ctx.step_out(), Ok(()));
    assert_eq!(ctx.current_path.to_file_path(), String::from("foo.rs"));
    assert_eq!(ctx.step_out(), Ok(()));
    assert_eq!(ctx.current_path.to_file_path(), String::from("foo.rs"));
    assert_eq!(ctx.step_out(), Ok(()));
    assert_eq!(ctx.current_path.to_file_path(), String::from("lib.rs"));
}
