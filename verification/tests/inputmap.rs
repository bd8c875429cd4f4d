use canopy::commands::{CommandAction, CommandArgs, CommandId, CommandInvocation, CommandTarget};
use canopy::error::Error;
use canopy::event::{InputSpec, Key, Mouse};
use canopy::inputmap::{
    BindingId, BindingOptions, BindingPhase, BindingScope, BindingSelector, BindingTarget,
    FrameworkBindingGroup, InputMap, ModalBindings,
};
use canopy::id::NodeId;
use canopy::path::{Path, PathFilter};
use canopy::script::LuauFunctionId;

fn help() -> FrameworkBindingGroup {
    FrameworkBindingGroup::new("root.help")
}

fn other() -> FrameworkBindingGroup {
    FrameworkBindingGroup::new("other.modal")
}

fn script(id: u64) -> LuauFunctionId {
    LuauFunctionId::for_test(id)
}

fn command(id: &'static str) -> CommandInvocation {
    CommandInvocation { id: CommandId(id), args: CommandArgs::default() }
}

fn key(k: impl Into<Key>) -> InputSpec {
    InputSpec::Key(k.into())
}

fn filter(path: &str) -> Option<PathFilter> {
    if path.is_empty() {
        None
    } else {
        Some(PathFilter::new(path).expect("valid path filter"))
    }
}

fn bind_framework(
    map: &mut InputMap,
    group: FrameworkBindingGroup,
    input: InputSpec,
    path: &str,
    description: &str,
    command: CommandInvocation,
) -> Result<BindingId, Error> {
    map.bind_framework(
        group,
        input,
        BindingOptions {
            path: Some(PathFilter::new(path)?),
            scope: BindingScope::Exclusive(group),
            description: description.to_string(),
            source: None,
            phase: BindingPhase::AfterWidget,
        },
        CommandAction { invocation: command, target: None },
    )
}

fn bind(
    map: &mut InputMap,
    scope: BindingScope,
    k: impl Into<Key>,
    path: &str,
    description: &str,
    target: u64,
) -> Result<BindingId, Error> {
    map.replace_application_action(
        key(k),
        BindingOptions {
            scope,
            path: filter(path),
            description: description.to_string(),
            source: Some("test:1".to_string()),
            phase: BindingPhase::AfterWidget,
        },
        BindingTarget::Script(script(target)),
    )
    .map(|(id, _)| id)
}

fn target(map: &InputMap, path: &str, k: impl Into<Key>) -> Option<BindingTarget> {
    map.resolve_match(&Path::from(path), key(k)).map(|binding| binding.target)
}

fn options(path: &str, phase: BindingPhase) -> BindingOptions {
    BindingOptions {
        path: filter(path),
        scope: BindingScope::Default,
        description: "Test action".to_string(),
        source: None,
        phase,
    }
}

#[test]
fn global_bindings_require_both_path_anchors() {
    for path in ["root/**/", "/root/**", "root/**"] {
        let mut map = InputMap::new();
        assert!(bind(&mut map, BindingScope::Global, '?', path, "Help", 1).is_err());
    }
}

#[test]
fn framework_registration_is_idempotent_and_rejects_conflicts() -> Result<(), Error> {
    let mut map = InputMap::new();
    let first = bind_framework(&mut map, help(), key('j'), "/root/help/**/", "Scroll down", command("binding_list::scroll_down"))?;
    let second = bind_framework(&mut map, help(), key('j'), "/root/help/**/", "Scroll down", command("binding_list::scroll_down"))?;
    assert_eq!(first, second);
    assert!(bind_framework(&mut map, help(), key('j'), "/root/help/**/", "Different", command("binding_list::scroll_down")).is_err());
    Ok(())
}

#[test]
fn application_mutation_cannot_remove_framework_records() -> Result<(), Error> {
    let mut map = InputMap::new();
    let app = bind(&mut map, BindingScope::Default, 'a', "", "App", 1)?;
    let framework = bind_framework(&mut map, help(), key('j'), "/root/help/**/", "Help down", command("binding_list::scroll_down"))?;
    assert_eq!(map.unbind(app)?, Some(BindingTarget::Script(script(1))));
    assert!(map.unbind(framework).is_err());
    map.clear_application();
    assert_eq!(map.bindings().len(), 1);
    assert_eq!(map.bindings()[0].id, framework);
    Ok(())
}

#[test]
fn startup_restore_preserves_framework_records_and_modal_bindings() -> Result<(), Error> {
    let mut map = InputMap::new();
    bind(&mut map, BindingScope::Default, 'a', "", "Before", 1)?;
    let snapshot = map.snapshot_application();
    bind(&mut map, BindingScope::Default, 'b', "", "Transient", 2)?;
    bind_framework(&mut map, help(), key('j'), "/root/help/**/", "Help down", command("binding_list::scroll_down"))?;
    map.set_modal_bindings(Some(ModalBindings::Framework(help())));

    map.restore_application(snapshot);
    assert_eq!(map.bindings().len(), 2);
    assert_eq!(map.active_exclusive_group(), Some(help()));
    Ok(())
}

#[test]
fn diagnostics_distinguish_scope_path_insertion_route_and_exclusive_causes() -> Result<(), Error> {
    let mut map = InputMap::new();
    let earlier_route = bind(&mut map, BindingScope::Default, 'a', "/root/editor/", "Earlier route", 1)?;
    let later_route = bind(&mut map, BindingScope::Default, 'a', "/root/", "Later route", 2)?;
    let insertion_loser = bind(&mut map, BindingScope::Default, 'b', "*/editor/", "First", 3)?;
    let insertion_winner = bind(&mut map, BindingScope::Default, 'b', "/root/*/", "Second", 4)?;
    let path_loser = bind(&mut map, BindingScope::Default, 'c', "*/", "Loose", 5)?;
    let path_winner = bind(&mut map, BindingScope::Default, 'c', "editor/", "Anchored", 6)?;
    let default = bind(&mut map, BindingScope::Default, 'd', "", "Default", 7)?;
    let global = bind(&mut map, BindingScope::Global, 'd', "/root/**/", "Global", 8)?;
    let unmatched = bind(&mut map, BindingScope::Default, 'e', "other/", "Other", 9)?;
    let route = [Path::from("/root/editor"), Path::from("/root")];

    assert_eq!(map.diagnostic_state(earlier_route, &route), "effective");
    assert_eq!(map.diagnostic_state(later_route, &route), "shadowed at an earlier route node");
    assert_eq!(map.diagnostic_state(insertion_loser, &route), "shadowed by later insertion");
    assert_eq!(map.diagnostic_state(insertion_winner, &route), "effective");
    assert_eq!(map.diagnostic_state(path_loser, &route), "shadowed by a more specific path");
    assert_eq!(map.diagnostic_state(path_winner, &route), "effective");
    assert_eq!(map.diagnostic_state(default, &route), "shadowed by a higher-priority scope");
    assert_eq!(map.diagnostic_state(global, &route), "effective");
    assert_eq!(map.diagnostic_state(unmatched, &route), "path does not match route");

    bind_framework(&mut map, help(), key('j'), "/root/help/**/", "Help down", command("binding_list::scroll_down"))?;
    map.set_modal_bindings(Some(ModalBindings::Framework(help())));
    assert_eq!(map.diagnostic_state(global, &route), "blocked by exclusive group root.help");
    map.set_modal_bindings(None);
    Ok(())
}

#[test]
fn explicit_phase_is_independent_of_selector() -> Result<(), Error> {
    let mut map = InputMap::new();
    let input = key('x');
    for path in ["editor", "editor/"] {
        for phase in [BindingPhase::BeforeWidget, BindingPhase::AfterWidget] {
            map.clear_application();
            let (id, _) = map.replace_application_action(input, options(path, phase), BindingTarget::Script(script(1)))?;
            assert_eq!(map.binding(id).unwrap().phase, phase);
            let resolved = map.resolve_match(&Path::from("/root/editor"), input).unwrap();
            assert_eq!(resolved.phase, phase);
        }
    }
    Ok(())
}

#[test]
fn omitted_phase_is_after_widget() -> Result<(), Error> {
    let mut map = InputMap::new();
    for (path, route) in [
        ("editor", "/root/editor"),
        ("editor", "/root/editor/child"),
        ("editor/", "/root/editor"),
        ("", "/root/editor"),
    ] {
        map.clear_application();
        bind(&mut map, BindingScope::Default, 'x', path, "Default phase", 1)?;
        let resolved = map.resolve_match(&Path::from(route), key('x')).unwrap();
        assert_eq!(resolved.phase, BindingPhase::AfterWidget);
    }
    Ok(())
}

#[test]
fn a_mouse_binding_takes_either_phase() -> Result<(), Error> {
    let mut map = InputMap::new();
    let input = InputSpec::Mouse(Mouse::parse_spec("ScrollUp").unwrap());
    for phase in [BindingPhase::BeforeWidget, BindingPhase::AfterWidget] {
        map.clear_application();
        map.replace_application_action(input, options("editor/", phase), BindingTarget::Script(script(1)))?;
        let resolved = map.resolve_match(&Path::from("/root/editor"), input).unwrap();
        assert_eq!(resolved.phase, phase);
    }

    let mut options = options("/root/dialog/**/", BindingPhase::BeforeWidget);
    options.scope = BindingScope::Exclusive(help());
    let id = map.bind_framework(
        help(),
        Mouse::parse_spec("LeftDown").unwrap().into(),
        options,
        CommandAction { invocation: command("button::press"), target: None },
    )?;
    assert_eq!(map.binding(id).unwrap().phase, BindingPhase::BeforeWidget);
    Ok(())
}

#[test]
fn framework_binding_options_preserve_explicit_phase() -> Result<(), Error> {
    let mut map = InputMap::new();
    let mut options = options("/root/help/**/", BindingPhase::AfterWidget);
    options.scope = BindingScope::Exclusive(help());
    let input = key('j');
    let action = CommandAction { invocation: command("binding_list::scroll_down"), target: Some(CommandTarget::Focus) };
    let id = map.bind_framework(help(), input, options.clone(), action.clone())?;
    assert_eq!(map.bind_framework(help(), input, options.clone(), action.clone())?, id);
    map.set_modal_bindings(Some(ModalBindings::Framework(help())));
    let resolved = map.resolve_match(&Path::from("/root/help/list"), input).unwrap();
    assert_eq!(resolved.phase, BindingPhase::AfterWidget);
    assert_eq!(resolved.target, BindingTarget::Command(action.clone()));
    options.phase = BindingPhase::BeforeWidget;
    assert!(map.bind_framework(help(), input, options, action).is_err());
    assert_eq!(map.binding(id).unwrap().phase, BindingPhase::AfterWidget);
    Ok(())
}

#[test]
fn resolution_uses_global_then_newest_mode_then_default() -> Result<(), Error> {
    let mut map = InputMap::new();
    bind(&mut map, BindingScope::Default, 'a', "", "Default", 1)?;
    bind(&mut map, BindingScope::Mode("normal".to_string()), 'a', "", "Normal", 2)?;
    bind(&mut map, BindingScope::Mode("modal".to_string()), 'a', "", "Modal", 3)?;
    bind(&mut map, BindingScope::Global, '?', "/root/**/", "Help", 4)?;

    map.push_mode("normal")?;
    map.push_mode("modal")?;
    assert_eq!(target(&map, "/root/editor", 'a'), Some(BindingTarget::Script(script(3))));
    assert_eq!(target(&map, "/root/editor", '?'), Some(BindingTarget::Script(script(4))));
    assert_eq!(map.active_modes(), vec!["modal", "normal"]);

    assert_eq!(map.pop_mode(), "normal");
    assert_eq!(target(&map, "/root/editor", 'a'), Some(BindingTarget::Script(script(2))));
    assert_eq!(map.pop_mode(), "");
    assert_eq!(target(&map, "/root/editor", 'a'), Some(BindingTarget::Script(script(1))));
    Ok(())
}

#[test]
fn path_score_then_latest_insertion_selects_the_winner() -> Result<(), Error> {
    let mut map = InputMap::new();
    bind(&mut map, BindingScope::Default, 'a', "editor", "Loose", 1)?;
    bind(&mut map, BindingScope::Default, 'a', "editor/", "Anchored", 2)?;
    assert_eq!(target(&map, "/root/editor", 'a'), Some(BindingTarget::Script(script(2))));

    bind(&mut map, BindingScope::Default, 'a', "editor/", "Latest", 3)?;
    assert_eq!(target(&map, "/root/editor", 'a'), Some(BindingTarget::Script(script(3))));
    Ok(())
}

#[test]
fn modal_bindings_block_all_application_tiers() -> Result<(), Error> {
    let mut map = InputMap::new();
    bind(&mut map, BindingScope::Default, 'j', "", "Application", 1)?;
    bind_framework(&mut map, help(), key('j'), "/root/help/**/", "Help down", command("binding_list::scroll_down"))?;
    bind_framework(&mut map, other(), key('x'), "/root/other/**/", "Other", command("other::close"))?;

    map.set_modal_bindings(Some(ModalBindings::Framework(help())));
    assert_eq!(
        target(&map, "/root/help/binding_list", 'j'),
        Some(BindingTarget::Command(CommandAction { invocation: command("binding_list::scroll_down"), target: None }))
    );
    assert_eq!(target(&map, "/root/help/binding_list", 'x'), None);
    map.set_modal_bindings(Some(ModalBindings::Framework(other())));
    assert_eq!(target(&map, "/root/help/binding_list", 'j'), None);
    map.set_modal_bindings(None);
    assert_eq!(map.active_exclusive_group(), None);
    assert_eq!(target(&map, "/root/help/binding_list", 'j'), Some(BindingTarget::Script(script(1))));
    Ok(())
}

#[test]
fn replacement_is_scoped_by_input_scope_and_exact_path() -> Result<(), Error> {
    let mut map = InputMap::new();
    let old = bind(&mut map, BindingScope::Default, 'a', "editor/", "Old", 1)?;
    let mode = bind(&mut map, BindingScope::Mode("insert".to_string()), 'a', "editor/", "Mode", 2)?;
    let new = bind(&mut map, BindingScope::Default, 'a', "editor/", "New", 3)?;

    assert!(map.binding(old).is_none());
    assert!(map.binding(mode).is_some());
    assert!(map.binding(new).is_some());
    assert_eq!(map.bindings().len(), 2);
    assert_eq!(target(&map, "/root/editor", 'a'), Some(BindingTarget::Script(script(3))));
    Ok(())
}

#[test]
fn application_command_targets_replace_and_remove_like_callbacks() -> Result<(), Error> {
    let mut map = InputMap::new();
    let script_id = bind(&mut map, BindingScope::Default, 'x', "", "Script", 1)?;
    let action = BindingTarget::Command(CommandAction { invocation: command("editor::undo"), target: Some(CommandTarget::Focus) });
    let (command_id, removed) = map.replace_application_action(key('x'), options("", BindingPhase::AfterWidget), action.clone())?;
    assert_eq!(removed, [(script_id, BindingTarget::Script(script(1)))]);
    assert_eq!(target(&map, "/root", 'x'), Some(action.clone()));
    assert_eq!(map.unbind(command_id)?, Some(action.clone()));
    assert_eq!(map.unbind(command_id)?, None);

    let (command_id, _) = map.replace_application_action(key('x'), options("", BindingPhase::AfterWidget), action.clone())?;
    let (_, removed) = map.replace_application_action(key('x'), options("", BindingPhase::AfterWidget), BindingTarget::Script(script(2)))?;
    assert_eq!(removed, [(command_id, action)]);
    Ok(())
}

#[test]
fn application_snapshot_and_clear_include_commands() -> Result<(), Error> {
    let mut map = InputMap::new();
    let action = BindingTarget::Command(CommandAction { invocation: command("editor::undo"), target: Some(CommandTarget::Exact(NodeId(7))) });
    let (command_id, _) = map.replace_application_action(key('x'), options("", BindingPhase::BeforeWidget), action.clone())?;
    let snapshot = map.snapshot_application();
    let script_id = bind(&mut map, BindingScope::Default, 'y', "", "Script", 1)?;
    let removed = map.clear_application();
    assert_eq!(removed, [(command_id, action.clone()), (script_id, BindingTarget::Script(script(1)))]);
    assert!(map.bindings().is_empty());
    map.restore_application(snapshot);
    assert_eq!(map.bindings().len(), 1);
    assert_eq!(target(&map, "/root", 'x'), Some(action));
    assert_eq!(map.binding(command_id).unwrap().phase, BindingPhase::BeforeWidget);
    Ok(())
}

#[test]
fn blank_descriptions_and_application_exclusive_scopes_are_refused() {
    let mut map = InputMap::new();
    assert!(matches!(bind(&mut map, BindingScope::Default, 'a', "", "  \t", 1), Err(Error::InvalidOperation(_))));
    assert!(matches!(
        bind(&mut map, BindingScope::Exclusive(help()), 'a', "", "Exclusive", 1),
        Err(Error::InvalidOperation(_))
    ));
    assert!(matches!(
        bind(&mut map, BindingScope::Mode(String::new()), 'a', "", "Unnamed mode", 1),
        Err(Error::InvalidOperation(_))
    ));
    assert!(map.bindings().is_empty());
}

#[test]
fn framework_bindings_need_their_group_scope() {
    let mut map = InputMap::new();
    let result = map.bind_framework(
        help(),
        key('j'),
        options("/root/help/**/", BindingPhase::AfterWidget),
        CommandAction { invocation: command("binding_list::scroll_down"), target: None },
    );
    assert!(matches!(result, Err(Error::InvalidOperation(_))));
    assert!(map.bindings().is_empty());
}

#[test]
fn unbind_input_removes_only_matching_application_bindings() -> Result<(), Error> {
    let mut map = InputMap::new();
    let a = bind(&mut map, BindingScope::Default, 'a', "editor/", "A", 1)?;
    bind(&mut map, BindingScope::Default, 'a', "other/", "A elsewhere", 2)?;
    bind(&mut map, BindingScope::Default, 'b', "editor/", "B", 3)?;
    let removed = map.unbind_input(key('a'), &BindingSelector { scope: None, path_filter: Some("editor/") });
    assert_eq!(removed, [(a, BindingTarget::Script(script(1)))]);
    assert_eq!(map.bindings().len(), 2);
    Ok(())
}

#[test]
fn exclusive_frames_pop_in_any_order() -> Result<(), Error> {
    let mut map = InputMap::new();
    let first = map.push_exclusive_bindings(help(), NodeId(1))?;
    let second = map.push_exclusive_bindings(other(), NodeId(2))?;
    assert_eq!(map.active_exclusive_group(), Some(other()));
    map.pop_exclusive_bindings(first)?;
    assert_eq!(map.active_exclusive_group(), Some(other()));
    assert!(map.pop_exclusive_bindings(first).is_err());
    map.pop_exclusive_bindings(second)?;
    assert_eq!(map.active_exclusive_group(), None);
    Ok(())
}

#[test]
fn set_mode_replaces_the_stack_and_labels_are_stable() -> Result<(), Error> {
    let mut map = InputMap::new();
    map.push_mode("a")?;
    map.push_mode("b")?;
    map.set_mode("c")?;
    assert_eq!(map.active_modes(), vec!["c"]);
    assert_eq!(map.current_mode(), "c");
    map.set_mode("")?;
    assert_eq!(map.current_mode(), "");
    assert_eq!(BindingScope::Global.label(), "global");
    assert_eq!(BindingScope::Mode("m".to_string()).mode(), Some("m"));
    assert_eq!(BindingTarget::Script(script(1)).label(), "script");
    Ok(())
}

#[test]
fn normalized_keys_share_one_registry_slot() -> Result<(), Error> {
    let mut map = InputMap::new();
    bind(&mut map, BindingScope::Default, Key::from('a').with_shift(), "", "Shifted A", 1)?;
    assert_eq!(target(&map, "/root", 'A'), Some(BindingTarget::Script(script(1))));
    assert_eq!(target(&map, "/root", Key::from('A').with_shift()), Some(BindingTarget::Script(script(1))));
    Ok(())
}

#[test]
fn identifier_exhaustion_does_not_replace_an_existing_binding() -> Result<(), Error> {
    let mut map = InputMap::new();
    bind(&mut map, BindingScope::Default, 'a', "", "Existing", 1)?;
    map.replace_next_id(u64::MAX);
    assert!(bind(&mut map, BindingScope::Default, 'a', "", "New", 2).is_err());
    assert_eq!(target(&map, "/root", 'a'), Some(BindingTarget::Script(script(1))));
    Ok(())
}

#[test]
fn replacing_the_next_identifier_returns_the_previous_one() -> Result<(), Error> {
    let mut map = InputMap::new();
    let first = bind(&mut map, BindingScope::Default, 'a', "", "First", 1)?;
    let previous = map.replace_next_id(100);
    assert_eq!(previous, first.as_u64() + 1);
    let next = bind(&mut map, BindingScope::Default, 'b', "", "Next", 2)?;
    assert_eq!(next.as_u64(), 100);
    assert_eq!(map.replace_next_id(previous), 101);
    Ok(())
}

#[test]
fn frames_of_detached_owners_are_dropped() -> Result<(), Error> {
    let mut map = InputMap::new();
    let t1 = map.push_exclusive_bindings(help(), NodeId(1))?;
    let t2 = map.push_exclusive_bindings(other(), NodeId(2))?;
    let t3 = map.push_exclusive_bindings(help(), NodeId(3))?;
    assert_eq!(map.exclusive_frame_tokens(), vec![t1, t2, t3]);
    map.retain_exclusive_owners(&[NodeId(3), NodeId(1)]);
    assert_eq!(map.exclusive_frame_tokens(), vec![t1, t3]);
    map.retain_exclusive_owners(&[]);
    assert!(map.exclusive_frame_tokens().is_empty());
    assert!(map.pop_exclusive_bindings(t1).is_err());
    Ok(())
}

#[test]
fn only_older_frames_of_replaced_owners_are_removed() -> Result<(), Error> {
    let mut map = InputMap::new();
    let old_a = map.push_exclusive_bindings(help(), NodeId(1))?;
    let old_b = map.push_exclusive_bindings(other(), NodeId(2))?;
    let before = map.exclusive_frame_tokens();
    let new_a = map.push_exclusive_bindings(help(), NodeId(1))?;
    map.remove_replaced_exclusive_owners(&[NodeId(1)], &before);
    assert_eq!(map.exclusive_frame_tokens(), vec![old_b, new_a]);
    assert!(map.pop_exclusive_bindings(old_a).is_err());
    map.remove_replaced_exclusive_owners(&[], &before);
    assert_eq!(map.exclusive_frame_tokens(), vec![old_b, new_a]);
    Ok(())
}
