use task_var::clawd::{label, receive, refresh, socket_path, Entry, Model, St};
use task_var::tmux::PaneInfo;

fn model(states: &[St]) -> Model {
    Model {
        entries: states
            .iter()
            .enumerate()
            .map(|(i, &st)| Entry { pane: format!("%{i}"), label: format!("s{i}"), st })
            .collect(),
    }
}

fn pane(id: &str, title: &str, cwd: &str) -> PaneInfo {
    PaneInfo { id: id.into(), title: title.into(), cwd: cwd.into() }
}

#[test]
fn label_prefers_what_claude_is_doing() {
    assert_eq!(
        label("✳ touch-claude廃止とセッション表示枠", "/home/me/ssd/tools/touch/task-var"),
        "touch-claude廃止とセッション表示枠"
    );
    assert_eq!(label("✻ フレームバッファの周辺知識", "/home/me"), "フレームバッファの周辺知識");
    assert_eq!(label("ubuntubook", "/home/me/ssd/tools/touch/task-var"), "task-var");
    assert_eq!(label("", "/home/me/ssd/ssbrowse/"), "ssbrowse");
    assert_eq!(label("✳", "/home/me/work"), "work");
    assert_eq!(label("", ""), "");
}

#[test]
fn every_mark_before_a_title_is_taken_off_once() {
    for m in ['✳', '✻', '✽', '✶', '✢', '*'] {
        assert_eq!(label(&format!(" {m}  do it "), "/a/b"), "do it");
    }
    assert_eq!(label("** x", "/a/b"), "* x");
    assert_eq!(label("x", "/"), "");
    assert_eq!(label("x", "//a//"), "a");
}

#[test]
fn state_transitions_follow_the_hooks() {
    let mut m = Model::default();
    m.apply("start", "%1", None);
    assert_eq!(m.rows(4).len(), 1);
    assert_eq!(m.rows(4)[0].st, St::Run);

    m.apply("question", "%1", None);
    assert_eq!(m.rows(4)[0].st, St::Ask, "a question while at work");
    m.apply("answer", "%1", None);
    assert_eq!(m.rows(4)[0].st, St::Run, "back to work after the answer");

    m.apply("stop", "%1", None);
    assert_eq!(m.rows(4)[0].st, St::Done);
    m.apply("question", "%1", None);
    assert_eq!(m.rows(4)[0].st, St::Done, "no question while idle");
    m.apply("seen", "%1", None);
    assert_eq!(m.rows(4)[0].st, St::Seen, "taken note of");
    m.apply("start", "%1", None);
    assert_eq!(m.rows(4)[0].st, St::Run, "back to work at the next prompt");

    m.apply("end", "%1", None);
    assert!(m.rows(4).is_empty(), "gone at the end of the session");
}

#[test]
fn overflow_keeps_the_ones_that_need_attention() {
    let m = model(&[St::Run, St::Seen, St::Done, St::Run, St::Ask, St::Run]);
    let rows = m.rows(4);

    let panes: Vec<&str> = rows.iter().map(|r| r.pane.as_str()).collect();
    assert_eq!(panes, ["%0", "%2", "%3", "%4"], "in the order in which they started");

    let m = model(&[St::Run, St::Done]);
    assert_eq!(m.rows(4).len(), 2);
}

#[test]
fn rows_match_a_stable_sort_by_priority() {
    let all = [St::Run, St::Ask, St::Done, St::Seen];
    for code in 0..1024usize {
        let states: Vec<St> = (0..5).map(|k| all[code / 4usize.pow(k) % 4]).collect();
        let m = model(&states);
        for max in 0..7 {
            let mut idx: Vec<usize> = (0..states.len()).collect();
            idx.sort_by_key(|&i| (states[i].prio(), i));
            idx.truncate(max);
            idx.sort_unstable();
            let want: Vec<String> = idx.iter().map(|i| format!("%{i}")).collect();
            let got: Vec<String> = m.rows(max).into_iter().map(|r| r.pane).collect();
            assert_eq!(got, want);
        }
    }
}

#[test]
fn a_new_entry_takes_its_label_from_the_pane() {
    let mut m = Model::default();
    assert!(m.wants_info("start", "%1"));
    assert!(!m.wants_info("stop", "%1"));
    m.apply("start", "%1", Some(&pane("%1", "✳ tests", "/a/b")));
    assert!(!m.wants_info("start", "%1"));
    assert_eq!(m.rows(1)[0].label, "tests");
    m.apply("stop", "%2", None);
    m.apply("nonsense", "%1", None);
    assert_eq!(m.rows(9).len(), 1);
}

#[test]
fn a_hook_leaves_the_other_panes_alone() {
    let mut m = model(&[St::Run, St::Run, St::Done]);
    m.apply("stop", "%1", None);
    let st: Vec<St> = m.rows(9).into_iter().map(|r| r.st).collect();
    assert_eq!(st, [St::Run, St::Done, St::Done]);
    m.apply("end", "%0", None);
    let panes: Vec<String> = m.rows(9).into_iter().map(|r| r.pane).collect();
    assert_eq!(panes, ["%1", "%2"]);
}

#[test]
fn panes_that_vanish_leave_and_labels_follow() {
    let mut m = model(&[St::Run, St::Ask, St::Done]);
    let alive = vec![pane("%2", "", "/x/dir"), pane("%0", "* new", "/y")];
    refresh(&mut m, Some(&alive), true);
    let got: Vec<(String, String)> = m.rows(9).into_iter().map(|r| (r.pane, r.label)).collect();
    assert_eq!(got, [("%0".to_string(), "new".to_string()), ("%2".to_string(), "dir".to_string())]);
    refresh(&mut m, None, true);
    assert_eq!(m.rows(9).len(), 2, "a failure keeps them");
    refresh(&mut m, None, false);
    assert!(m.rows(9).is_empty(), "without a server there is nobody");
}

#[test]
fn messages_are_hooks_or_ask_for_the_status() {
    let mut m = Model::default();
    let none = "(表示中の clawd なし)\n".to_string();
    assert_eq!(receive(&mut m, "status", None, None, "clawd"), Some(none));
    assert_eq!(m.status("assistant"), "(表示中の assistant なし)\n");
    assert_eq!(receive(&mut m, "start", None, None, "clawd"), None);
    assert!(m.rows(9).is_empty(), "a hook without a pane");
    assert_eq!(receive(&mut m, "start", Some("%3"), None, "clawd"), None);
    assert_eq!(receive(&mut m, "start", Some("%4"), Some(&pane("%4", "", "/a/proj")), "clawd"), None);
    receive(&mut m, "question", Some("%4"), None, "clawd");
    assert_eq!(
        receive(&mut m, "status", Some("%4"), None, "clawd"),
        Some("%3 run ?\n%4 ask proj\n".to_string())
    );
}

#[test]
fn the_socket_lies_in_the_runtime_directory() {
    assert_eq!(socket_path(Some("/run/user/1000")), "/run/user/1000/task-var.sock");
    assert_eq!(socket_path(Some("/run/")), "/run/task-var.sock");
    assert_eq!(socket_path(Some("")), "/tmp/task-var.sock");
    assert_eq!(socket_path(None), "/tmp/task-var.sock");
    let joined = std::path::Path::new("/run/").join("task-var.sock");
    assert_eq!(joined.to_str(), Some(socket_path(Some("/run/")).as_str()));
}
