use braid::branch_sync::{branch_step, BranchOp, BranchPhase};

fn op_name(op: &BranchOp) -> String {
    match op {
        BranchOp::HasOrigin => "has-origin".to_string(),
        BranchOp::OnMain => "on-main".to_string(),
        BranchOp::HasRemoteMain => "has-remote-main".to_string(),
        BranchOp::Git(a) => format!("git {}", a.join(" ")),
        BranchOp::Done => "done".to_string(),
        BranchOp::Fail(m) => format!("fail: {}", m),
    }
}

fn run(outcomes: &[bool]) -> Vec<String> {
    let mut phase = BranchPhase::Start;
    let mut ok = true;
    let mut seen = Vec::new();
    let mut k = 0;
    loop {
        let (next, action) = branch_step(phase, ok);
        phase = next;
        let name = op_name(&action.op);
        seen.push(name.clone());
        if name == "done" || name.starts_with("fail") {
            return seen;
        }
        ok = outcomes[k];
        k += 1;
    }
}

#[test]
fn already_on_main_with_origin_rebases() {
    assert_eq!(
        run(&[true, true, true, true, true]),
        vec!["has-origin", "git fetch origin main", "on-main", "has-remote-main", "git rebase origin/main", "done"]
    );
}

#[test]
fn switches_to_main_without_origin() {
    assert_eq!(run(&[false, false, true, false]), vec!["has-origin", "on-main", "git checkout main", "has-remote-main", "done"]);
}

#[test]
fn failed_checkout_fails() {
    assert_eq!(run(&[false, false, false]), vec!["has-origin", "on-main", "git checkout main", "fail: failed to checkout main"]);
}

#[test]
fn failed_rebase_is_aborted() {
    assert_eq!(
        run(&[false, true, true, false, true]),
        vec![
            "has-origin",
            "on-main",
            "has-remote-main",
            "git rebase origin/main",
            "git rebase --abort",
            "fail: rebase failed - resolve conflicts manually"
        ]
    );
}
