//! The unit catalog: ranking, grouping, selection and the action
//! workflow, driven through the public state machine.

use rootwork::rank::{fuzzy_match_score, SortBy};
use rootwork::systemd::UnitInfo;
use rootwork::tree::TreeItem;
use rootwork::units::{Key, UnitAction, UnitsContext, ViewMode};

fn unit(name: &str, description: &str, active: &str) -> UnitInfo {
    UnitInfo {
        name: name.to_string(),
        description: description.to_string(),
        load_state: "loaded".to_string(),
        active_state: active.to_string(),
        sub_state: "running".to_string(),
    }
}

fn names(ctx: &UnitsContext) -> Vec<String> {
    ctx.filtered_units.iter().map(|u| u.name.clone()).collect()
}

#[test]
fn ssh_query_matches_both_ssh_units() {
    assert_eq!(fuzzy_match_score("sshd.service", "ssh"), Some(0));
    assert_eq!(fuzzy_match_score("ssh-agent.service", "ssh"), Some(0));
    assert_eq!(fuzzy_match_score("cron.timer", "ssh"), None);

    let mut ctx = UnitsContext::new();
    ctx.filter = "ssh".chars().collect();
    ctx.refresh(Ok(vec![
        unit("sshd.service", "OpenSSH server", "active"),
        unit("ssh-agent.service", "SSH agent", "inactive"),
        unit("cron.timer", "Scheduled jobs", "active"),
    ]));
    assert_eq!(names(&ctx), vec!["ssh-agent.service", "sshd.service"]);
}

#[test]
fn substring_match_scores_its_start_index() {
    assert_eq!(fuzzy_match_score("abcdef", "cde"), Some(2));
    assert_eq!(fuzzy_match_score("abc", ""), Some(0));
}

#[test]
fn subsequence_match_carries_the_fixed_penalty() {
    // a at 0, b skips one, c skips one: 0 + 2 * (0 + 1 + 1) + 100.
    assert_eq!(fuzzy_match_score("a_b_c", "abc"), Some(104));
}

#[test]
fn substring_outranks_subsequence_at_same_position() {
    let sub = fuzzy_match_score("ssh-unit.service", "sshu").unwrap();
    let seq = fuzzy_match_score("sshunit.service", "sshu").unwrap();
    assert!(seq < sub, "contiguous match must order first");
}

#[test]
fn query_is_case_insensitive_and_trimmed() {
    let mut ctx = UnitsContext::new();
    ctx.filter = " SSH ".chars().collect();
    ctx.refresh(Ok(vec![
        unit("sshd.service", "server", "active"),
        unit("cron.timer", "jobs", "active"),
    ]));
    assert_eq!(names(&ctx), vec!["sshd.service"]);
}

#[test]
fn description_matches_rank_behind_name_matches() {
    let mut ctx = UnitsContext::new();
    ctx.filter = "ssh".chars().collect();
    ctx.refresh(Ok(vec![
        unit("tunnel.service", "ssh tunnel", "active"),
        unit("sshd.service", "server", "active"),
    ]));
    assert_eq!(names(&ctx), vec!["sshd.service", "tunnel.service"]);
}

#[test]
fn empty_query_keeps_every_unit() {
    let mut ctx = UnitsContext::new();
    ctx.refresh(Ok(vec![
        unit("b.service", "second", "active"),
        unit("a.service", "first", "inactive"),
    ]));
    let mut got = names(&ctx);
    got.sort();
    assert_eq!(got, vec!["a.service", "b.service"]);
    // The ranking still orders by the active sort key (name, ascending).
    assert_eq!(names(&ctx), vec!["a.service", "b.service"]);
}

#[test]
fn sorted_input_passes_through_in_order() {
    let mut ctx = UnitsContext::new();
    ctx.refresh(Ok(vec![
        unit("a.service", "first", "active"),
        unit("b.service", "second", "active"),
        unit("c.timer", "third", "inactive"),
    ]));
    assert_eq!(names(&ctx), vec!["a.service", "b.service", "c.timer"]);
}

#[test]
fn state_sort_orders_by_active_state_then_name() {
    let mut ctx = UnitsContext::new();
    ctx.view_mode = ViewMode::List;
    ctx.sort_by = SortBy::State;
    ctx.refresh(Ok(vec![
        unit("b.service", "x", "inactive"),
        unit("a.service", "x", "inactive"),
        unit("c.service", "x", "active"),
    ]));
    assert_eq!(names(&ctx), vec!["c.service", "a.service", "b.service"]);
}

#[test]
fn descending_direction_never_touches_the_score_order() {
    let mut ctx = UnitsContext::new();
    ctx.view_mode = ViewMode::List;
    ctx.sort_ascending = false;
    ctx.filter = "sh".chars().collect();
    ctx.refresh(Ok(vec![
        unit("fish.service", "x", "active"),
        unit("sshd.service", "x", "active"),
        unit("sha.service", "x", "active"),
        unit("shb.service", "x", "active"),
    ]));
    // Scores: sha/shb at 0, sshd at 1, fish at 2 — still ascending; only
    // the name tie-break between the equal scores is reversed.
    assert_eq!(
        names(&ctx),
        vec!["shb.service", "sha.service", "sshd.service", "fish.service"]
    );
}

#[test]
fn descending_sort_reverses_the_order() {
    let mut ctx = UnitsContext::new();
    ctx.view_mode = ViewMode::List;
    ctx.sort_ascending = false;
    ctx.refresh(Ok(vec![
        unit("a.service", "x", "active"),
        unit("b.service", "x", "active"),
    ]));
    assert_eq!(names(&ctx), vec!["b.service", "a.service"]);
}

#[test]
fn first_build_collapses_every_group_but_service() {
    let mut ctx = UnitsContext::new();
    ctx.refresh(Ok(vec![
        unit("a.service", "1", "active"),
        unit("b.service", "2", "active"),
        unit("c.service", "3", "inactive"),
        unit("d.service", "4", "active"),
        unit("e.service", "5", "active"),
        unit("x.socket", "6", "inactive"),
        unit("y.socket", "7", "active"),
    ]));
    assert_eq!(ctx.collapsed_groups, vec!["socket".to_string()]);
    // The tree shows the expanded service group and the collapsed socket
    // header: 1 header + 5 units + 1 header.
    assert_eq!(ctx.tree_items.len(), 7);
    match &ctx.tree_items[0] {
        TreeItem::Group { name, count, active } => {
            assert_eq!(name, "service");
            assert_eq!(*count, 5);
            assert_eq!(*active, 4);
        }
        _ => panic!("expected the service header first"),
    }
    match &ctx.tree_items[6] {
        TreeItem::Group { name, count, active } => {
            assert_eq!(name, "socket");
            assert_eq!(*count, 2);
            assert_eq!(*active, 1);
        }
        _ => panic!("expected the socket header last"),
    }
}

#[test]
fn toggling_a_group_flips_only_its_children() {
    let mut ctx = UnitsContext::new();
    ctx.refresh(Ok(vec![
        unit("a.service", "1", "active"),
        unit("b.service", "2", "active"),
        unit("c.service", "3", "inactive"),
        unit("d.service", "4", "active"),
        unit("e.service", "5", "active"),
        unit("x.socket", "6", "inactive"),
        unit("y.socket", "7", "active"),
    ]));
    assert_eq!(ctx.tree_items.len(), 7);
    ctx.selected = 6; // the socket header
    ctx.toggle_current_group();
    assert_eq!(ctx.tree_items.len(), 9, "the socket members become visible");
    assert!(ctx.collapsed_groups.is_empty());
    assert!(matches!(&ctx.tree_items[0], TreeItem::Group { name, .. } if name == "service"));
    assert!(matches!(&ctx.tree_items[6], TreeItem::Group { name, .. } if name == "socket"));
    assert!(matches!(&ctx.tree_items[7], TreeItem::Unit { unit } if unit.name == "x.socket"));
}

#[test]
fn rebuild_is_idempotent() {
    let mut ctx = UnitsContext::new();
    ctx.refresh(Ok(vec![
        unit("a.service", "1", "active"),
        unit("x.socket", "2", "inactive"),
    ]));
    let collapsed_once = ctx.collapsed_groups.clone();
    let items_once = ctx.tree_items.len();
    ctx.rebuild_tree_items();
    assert_eq!(ctx.collapsed_groups, collapsed_once);
    assert_eq!(ctx.tree_items.len(), items_once);
}

#[test]
fn a_name_without_a_dot_falls_into_the_unknown_bucket() {
    assert_eq!(rootwork::tree::group_key_of("plain"), "unknown");
    assert_eq!(rootwork::tree::group_key_of("foo.service"), "service");
    assert_eq!(rootwork::tree::group_key_of("a.b.timer"), "timer");
}

#[test]
fn confirm_then_affirm_arms_exactly_one_call() {
    let mut ctx = UnitsContext::new();
    ctx.refresh(Ok(vec![unit("foo.service", "test", "active")]));
    ctx.selected = 1; // the unit row under the service header
    let asked = ctx.handle_key(Key::Enter);
    assert_eq!(asked, Some("foo.service".to_string()));
    assert!(ctx.detail_unit.is_some());

    ctx.handle_key(Key::Char('x'));
    assert_eq!(ctx.confirm_action, Some(UnitAction::Stop));
    assert_eq!(ctx.pending_action, None);

    ctx.handle_key(Key::Char('y'));
    assert_eq!(ctx.confirm_action, None);
    assert_eq!(ctx.pending_action, Some(UnitAction::Stop));

    let took = ctx.take_pending();
    assert_eq!(took, Some((UnitAction::Stop, "foo.service".to_string())));
    assert_eq!(ctx.pending_action, None);
    assert_eq!(ctx.take_pending(), None, "the slot is single-shot");

    ctx.finish_action(
        UnitAction::Stop,
        "foo.service",
        Ok(()),
        Ok(vec![unit("foo.service", "test", "inactive")]),
        Vec::new(),
    );
    assert_eq!(ctx.action_status.as_deref(), Some("stop foo.service: OK"));
    // The slot stays empty through the whole tick: nothing re-arms.
    assert_eq!(ctx.pending_action, None);
    assert_eq!(ctx.confirm_action, None);
    assert!(ctx.detail_unit.is_some());
}

#[test]
fn negative_answer_never_arms_a_call() {
    let mut ctx = UnitsContext::new();
    ctx.refresh(Ok(vec![unit("foo.service", "test", "active")]));
    ctx.selected = 1;
    ctx.handle_key(Key::Enter);
    ctx.handle_key(Key::Char('s'));
    assert_eq!(ctx.confirm_action, Some(UnitAction::Start));
    ctx.handle_key(Key::Char('n'));
    assert_eq!(ctx.confirm_action, None);
    assert_eq!(ctx.pending_action, None);
    assert_eq!(ctx.take_pending(), None);
}

#[test]
fn a_failed_call_is_recorded_verbatim() {
    let mut ctx = UnitsContext::new();
    ctx.refresh(Ok(vec![unit("foo.service", "test", "active")]));
    ctx.finish_action(
        UnitAction::Enable,
        "foo.service",
        Err("permission denied".to_string()),
        Ok(vec![unit("foo.service", "test", "active")]),
        Vec::new(),
    );
    assert_eq!(
        ctx.action_status.as_deref(),
        Some("enable foo.service: permission denied")
    );
}

#[test]
fn a_failed_snapshot_becomes_an_error_line() {
    let mut ctx = UnitsContext::new();
    ctx.refresh(Ok(vec![
        unit("a.service", "1", "active"),
        unit("x.socket", "2", "inactive"),
    ]));
    let collapsed_before = ctx.collapsed_groups.clone();
    ctx.refresh(Err("bus gone".to_string()));
    assert_eq!(ctx.error.as_deref(), Some("Failed to list units: bus gone"));
    assert!(!ctx.loading);
    // Stale data is retained, the collapse state included.
    assert_eq!(ctx.units.len(), 2);
    assert_eq!(ctx.collapsed_groups, collapsed_before);
}

#[test]
fn selection_stays_inside_the_projection() {
    let mut ctx = UnitsContext::new();
    ctx.refresh(Ok(vec![
        unit("a.service", "1", "active"),
        unit("b.service", "2", "active"),
        unit("x.socket", "3", "active"),
    ]));
    let total = ctx.get_total_items();
    assert!(total > 0);
    ctx.selected = total - 1;
    // Collapsing everything shrinks the projection; the cursor is clamped.
    ctx.collapse_all();
    let total = ctx.get_total_items();
    assert!(total > 0 && ctx.selected < total);
    ctx.handle_key(Key::Char('G'));
    assert!(ctx.selected < ctx.get_total_items());
    ctx.handle_key(Key::PageDown);
    assert!(ctx.selected < ctx.get_total_items());
    ctx.handle_key(Key::Char('k'));
    assert!(ctx.selected < ctx.get_total_items());
}

#[test]
fn filter_entry_edits_and_restores() {
    let mut ctx = UnitsContext::new();
    ctx.view_mode = ViewMode::List;
    ctx.refresh(Ok(vec![
        unit("alpha.service", "1", "active"),
        unit("beta.service", "2", "active"),
    ]));
    ctx.handle_key(Key::Char('/'));
    assert!(ctx.show_filter);
    ctx.handle_key(Key::Char('b'));
    assert_eq!(names(&ctx), vec!["beta.service"]);
    // Abandoning the entry restores the previous (empty) filter.
    ctx.handle_key(Key::Esc);
    assert!(!ctx.show_filter);
    assert_eq!(names(&ctx).len(), 2);

    ctx.handle_key(Key::Char('/'));
    ctx.handle_key(Key::Char('a'));
    ctx.handle_key(Key::Char('l'));
    ctx.handle_key(Key::Enter);
    assert!(!ctx.show_filter);
    assert_eq!(names(&ctx), vec!["alpha.service"]);
    // A plain escape clears the committed filter.
    ctx.handle_key(Key::Esc);
    assert_eq!(names(&ctx).len(), 2);
}

#[test]
fn view_mode_toggle_resets_the_cursor() {
    let mut ctx = UnitsContext::new();
    ctx.refresh(Ok(vec![
        unit("a.service", "1", "active"),
        unit("b.service", "2", "active"),
    ]));
    ctx.selected = 2;
    ctx.handle_key(Key::Char('t'));
    assert_eq!(ctx.view_mode, ViewMode::List);
    assert_eq!(ctx.selected, 0);
}

#[test]
fn detail_scroll_keys_leave_follow_mode() {
    let mut ctx = UnitsContext::new();
    ctx.refresh(Ok(vec![unit("foo.service", "test", "active")]));
    ctx.selected = 1;
    ctx.handle_key(Key::Enter);
    assert!(ctx.detail_log_follow);
    ctx.handle_key(Key::Char('g'));
    assert_eq!(ctx.detail_log_scroll, 0);
    assert!(!ctx.detail_log_follow);
    ctx.handle_key(Key::Char('j'));
    assert_eq!(ctx.detail_log_scroll, 1);
    ctx.handle_key(Key::Char('G'));
    assert_eq!(ctx.detail_log_scroll, usize::MAX);
    assert!(ctx.detail_log_follow);
    ctx.handle_key(Key::Char('q'));
    assert!(ctx.detail_unit.is_none());
}

#[test]
fn unit_state_predicates() {
    let u = unit("a.service", "x", "active");
    assert!(u.is_active());
    assert!(!u.is_failed());
    assert_eq!(u.state_indicator(), "\u{25cf}");
    let mut f = unit("b.service", "x", "failed");
    assert!(f.is_failed());
    assert_eq!(f.state_indicator(), "\u{2717}");
    f.active_state = "weird".to_string();
    assert_eq!(f.state_indicator(), "?");
}

#[test]
fn action_labels() {
    assert_eq!(UnitAction::Start.label(), "start");
    assert_eq!(UnitAction::Stop.label(), "stop");
    assert_eq!(UnitAction::Enable.label(), "enable");
    assert_eq!(UnitAction::Disable.label(), "disable");
}

#[test]
fn window_moves_as_little_as_possible() {
    assert_eq!(rootwork::units::window_start(2, 5, 10), 2, "a cursor above the window becomes the top");
    assert_eq!(rootwork::units::window_start(20, 5, 10), 11, "a cursor below pushes the window down");
    assert_eq!(rootwork::units::window_start(7, 5, 10), 5, "a cursor inside leaves the window alone");
}
