use grok_pager::jump_dispatch::{
    dispatch_jump_dismiss, dispatch_jump_picker_select, dispatch_jump_show_picker,
    dispatch_jump_to_turn, ActiveView, AgentView, AppView, JumpRestore, ScrollBookmark, Scrollback,
};

fn agent(id: u64, entry_ids: Vec<u64>, turns: Vec<u64>, top: usize) -> AgentView {
    AgentView {
        id,
        scrollback: Scrollback {
            entry_ids,
            turns,
            top,
            selected: Some(4),
            follow_mode: true,
        },
        jump_state: None,
        overlay_owns_input: false,
    }
}

fn app(entry_ids: Vec<u64>, turns: Vec<u64>, top: usize) -> AppView {
    AppView {
        active_view: ActiveView::Agent(7),
        agents: vec![agent(3, vec![1, 2], vec![1, 2], 0), agent(7, entry_ids, turns, top)],
        toasts: vec![],
    }
}

fn transcript() -> AppView {
    // Entries 10..=15; turns start at entries 10, 12 and 14.
    app(vec![10, 11, 12, 13, 14, 15], vec![10, 12, 14], 3)
}

#[test]
fn picker_opens_on_the_turn_at_the_viewport_top() {
    let mut a = transcript();
    dispatch_jump_show_picker(&mut a);
    let ag = &a.agents[1];
    let js = ag.jump_state.as_ref().unwrap();
    assert_eq!(js.selected, 1);
    assert_eq!(
        js.entries.iter().map(|e| e.prompt_entry_id).collect::<Vec<_>>(),
        vec![10, 12, 14]
    );
    assert_eq!(
        js.restore,
        JumpRestore {
            bookmark: ScrollBookmark { top: 3 },
            selected: Some(4),
            follow_mode: true
        }
    );
    // The preview puts the selected turn's prompt at the top.
    assert_eq!(ag.scrollback.top, 2);
    assert!(!ag.scrollback.follow_mode);
    assert!(a.toasts.is_empty());
    assert!(a.agents[0].jump_state.is_none());
}

#[test]
fn picker_opens_on_newest_turn_when_no_turn_is_at_the_top() {
    let mut a = app(vec![9, 10, 11, 12], vec![10, 12], 0);
    dispatch_jump_show_picker(&mut a);
    assert_eq!(a.agents[1].jump_state.as_ref().unwrap().selected, 1);
    assert_eq!(a.agents[1].scrollback.top, 3);
}

#[test]
fn picker_needs_two_turns() {
    let mut a = app(vec![10, 11], vec![10], 1);
    dispatch_jump_show_picker(&mut a);
    assert!(a.agents[1].jump_state.is_none());
    assert_eq!(a.toasts, vec!["Nothing to jump to yet".to_string()]);
    assert_eq!(a.agents[1].scrollback.top, 1);
}

#[test]
fn picker_refused_while_another_overlay_owns_input() {
    let mut a = transcript();
    a.agents[1].overlay_owns_input = true;
    dispatch_jump_show_picker(&mut a);
    assert!(a.agents[1].jump_state.is_none());
    assert!(a.toasts.is_empty());
    assert_eq!(a.agents[1].scrollback.top, 3);
}

#[test]
fn picker_ignored_without_an_active_agent() {
    let mut a = transcript();
    a.active_view = ActiveView::NoAgent;
    dispatch_jump_show_picker(&mut a);
    assert!(a.agents[1].jump_state.is_none());
    a.active_view = ActiveView::Agent(99);
    dispatch_jump_show_picker(&mut a);
    dispatch_jump_to_turn(&mut a, 1);
    assert!(a.agents[1].jump_state.is_none());
    assert!(a.toasts.is_empty());
}

#[test]
fn selecting_a_prompt_jumps_and_closes_the_picker() {
    let mut a = transcript();
    dispatch_jump_show_picker(&mut a);
    dispatch_jump_picker_select(&mut a, 14);
    assert!(a.agents[1].jump_state.is_none());
    assert_eq!(a.agents[1].scrollback.top, 4);
}

#[test]
fn selecting_a_removed_prompt_restores_the_viewport() {
    let mut a = transcript();
    dispatch_jump_show_picker(&mut a);
    dispatch_jump_picker_select(&mut a, 99);
    let sb = &a.agents[1].scrollback;
    assert!(a.agents[1].jump_state.is_none());
    assert_eq!((sb.top, sb.selected, sb.follow_mode), (3, Some(4), true));
}

#[test]
fn selecting_without_a_picker_changes_nothing() {
    let mut a = transcript();
    dispatch_jump_picker_select(&mut a, 14);
    assert_eq!(a.agents[1].scrollback.top, 3);
    assert!(a.agents[1].scrollback.follow_mode);
}

#[test]
fn dismissing_restores_the_viewport() {
    let mut a = transcript();
    dispatch_jump_show_picker(&mut a);
    dispatch_jump_dismiss(&mut a);
    let sb = &a.agents[1].scrollback;
    assert!(a.agents[1].jump_state.is_none());
    assert_eq!((sb.top, sb.selected, sb.follow_mode), (3, Some(4), true));
}

#[test]
fn jump_to_turn_is_one_based() {
    let mut a = transcript();
    dispatch_jump_to_turn(&mut a, 3);
    assert_eq!(a.agents[1].scrollback.top, 4);
    assert!(!a.agents[1].scrollback.follow_mode);
    assert!(a.toasts.is_empty());
}

#[test]
fn jump_to_missing_turn_toasts_and_keeps_viewport() {
    let mut a = transcript();
    dispatch_jump_to_turn(&mut a, 4);
    dispatch_jump_to_turn(&mut a, 0);
    dispatch_jump_to_turn(&mut a, 1234567);
    assert_eq!(a.agents[1].scrollback.top, 3);
    assert!(a.agents[1].scrollback.follow_mode);
    assert_eq!(
        a.toasts,
        vec![
            "Turn 4 doesn't exist".to_string(),
            "Turn 0 doesn't exist".to_string(),
            "Turn 1234567 doesn't exist".to_string()
        ]
    );
}

#[test]
fn jump_to_turn_whose_prompt_is_gone_toasts() {
    let mut a = app(vec![10, 11], vec![10, 12], 1);
    dispatch_jump_to_turn(&mut a, 2);
    assert_eq!(a.agents[1].scrollback.top, 1);
    assert_eq!(a.toasts, vec!["Turn 2 doesn't exist".to_string()]);
}

#[test]
fn jump_to_turn_dismisses_an_open_picker_first() {
    let mut a = transcript();
    dispatch_jump_show_picker(&mut a);
    dispatch_jump_to_turn(&mut a, 1);
    assert!(a.agents[1].jump_state.is_none());
    assert_eq!(a.agents[1].scrollback.top, 0);
    // A missing turn after the picker closed leaves the restored viewport.
    dispatch_jump_show_picker(&mut a);
    dispatch_jump_to_turn(&mut a, 8);
    assert!(a.agents[1].jump_state.is_none());
    assert_eq!(a.agents[1].scrollback.top, 0);
}
