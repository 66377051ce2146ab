use skill_manager::links::{
    register_plan, RegisterStep,
    diagnose_adapter_skills, diagnose_entry, diagnose_skill_links, fix_all_skill_links, fix_skill_link,
    imported_skill_record, is_symlink_to_central, needs_content_hashes, new_imported_skill_record,
    AdapterScan, BulkAction, EntryFacts, FixAllResult, FixCandidate, IssueKind, LinkError, LinkStep,
    SkillLinkIssue,
};

fn s(x: &str) -> String {
    x.to_string()
}

fn comps(path: &str) -> Vec<String> {
    let mut v = vec![s("/")];
    for c in path.split('/').filter(|c| !c.is_empty()) {
        v.push(s(c));
    }
    v
}

fn central() -> Vec<String> {
    comps("/home/u/.skills")
}

fn entry(name: &str) -> EntryFacts {
    EntryFacts {
        name: Some(s(name)),
        found_path: format!("/home/u/.tool/skills/{name}"),
        is_symlink: false,
        link_target: None,
        exists: true,
        is_dir: false,
        central_path: format!("/home/u/.skills/{name}"),
        central_exists: false,
        local_hash: None,
        central_hash: None,
    }
}

fn link(name: &str, target: &str, exists: bool) -> EntryFacts {
    let mut e = entry(name);
    e.is_symlink = true;
    e.link_target = Some(comps(target));
    e.exists = exists;
    e.is_dir = exists;
    e
}

fn dir(name: &str, central_exists: bool, local: Option<&str>, central: Option<&str>) -> EntryFacts {
    let mut e = entry(name);
    e.is_dir = true;
    e.central_exists = central_exists;
    e.local_hash = local.map(s);
    e.central_hash = central.map(s);
    e
}

fn judge(e: &EntryFacts) -> Option<SkillLinkIssue> {
    diagnose_entry(&s("windsurf"), &s("Windsurf"), &central(), e)
}

#[test]
fn symlink_into_central_is_recognised_by_components() {
    assert!(is_symlink_to_central(&Some(comps("/home/u/.skills/pdf")), &central()));
    assert!(is_symlink_to_central(&Some(comps("/home/u/.skills")), &central()));
    assert!(!is_symlink_to_central(&Some(comps("/home/u/.skills-old/pdf")), &central()));
    assert!(!is_symlink_to_central(&Some(comps("/home/u")), &central()));
    assert!(!is_symlink_to_central(&None, &central()));
}

#[test]
fn healthy_link_is_not_reported() {
    assert!(judge(&link("pdf", "/home/u/.skills/pdf", true)).is_none());
}

#[test]
fn dangling_link_into_central_is_broken() {
    let i = judge(&link("pdf", "/home/u/.skills/pdf", false)).unwrap();
    assert_eq!(i.issue_type, "broken_symlink");
    assert_eq!(i.central_path, None);
    assert_eq!(i.skill_name, "pdf");
    assert_eq!(i.tool_key, "windsurf");
    assert_eq!(i.tool_display_name, "Windsurf");
    assert_eq!(i.found_path, "/home/u/.tool/skills/pdf");
}

#[test]
fn link_elsewhere_is_wrong_target_with_central_path_when_central_exists() {
    let mut e = link("pdf", "/opt/skills/pdf", true);
    e.central_exists = true;
    let i = judge(&e).unwrap();
    assert_eq!(i.issue_type, "wrong_target_symlink");
    assert_eq!(i.central_path, Some(s("/home/u/.skills/pdf")));
    e.central_exists = false;
    let i = judge(&e).unwrap();
    assert_eq!(i.issue_type, "wrong_target_symlink");
    assert_eq!(i.central_path, None);
}

#[test]
fn dangling_link_elsewhere_is_broken() {
    let i = judge(&link("pdf", "/opt/skills/pdf", false)).unwrap();
    assert_eq!(i.issue_type, "broken_symlink");
    assert_eq!(i.central_path, None);
}

#[test]
fn unreadable_link_counts_as_link_elsewhere() {
    let mut e = link("pdf", "/home/u/.skills/pdf", true);
    e.link_target = None;
    assert_eq!(judge(&e).unwrap().issue_type, "wrong_target_symlink");
}

#[test]
fn physical_copies_compare_by_hash() {
    let i = judge(&dir("pdf", true, Some("abc"), Some("abc"))).unwrap();
    assert_eq!(i.issue_type, "physical_copy_identical");
    assert_eq!(i.central_path, Some(s("/home/u/.skills/pdf")));
    let i = judge(&dir("pdf", true, Some("abc"), Some("abd"))).unwrap();
    assert_eq!(i.issue_type, "physical_copy_diverged");
    let i = judge(&dir("pdf", true, None, Some("abc"))).unwrap();
    assert_eq!(i.issue_type, "physical_copy_diverged");
    let i = judge(&dir("pdf", true, None, None)).unwrap();
    assert_eq!(i.issue_type, "physical_copy_diverged");
}

#[test]
fn directory_without_central_counterpart_is_orphan() {
    let i = judge(&dir("mine", false, None, None)).unwrap();
    assert_eq!(i.issue_type, "orphan");
    assert_eq!(i.central_path, None);
}

#[test]
fn hidden_files_and_unnamed_entries_are_skipped() {
    assert!(judge(&dir(".git", false, None, None)).is_none());
    assert!(judge(&link(".cache", "/nowhere", false)).is_none());
    let mut e = dir("x", false, None, None);
    e.name = None;
    assert!(judge(&e).is_none());
    assert!(judge(&entry("README.md")).is_none());
}

#[test]
fn hashes_are_needed_only_for_copies_with_a_central_counterpart() {
    assert!(needs_content_hashes(&dir("pdf", true, None, None)));
    assert!(!needs_content_hashes(&dir("pdf", false, None, None)));
    assert!(!needs_content_hashes(&dir(".pdf", true, None, None)));
    assert!(!needs_content_hashes(&link("pdf", "/home/u/.skills/pdf", true)));
}

#[test]
fn diagnose_keeps_entry_and_tool_order() {
    let a = AdapterScan {
        tool_key: s("windsurf"),
        tool_display_name: s("Windsurf"),
        entries: vec![
            dir("b", false, None, None),
            link("ok", "/home/u/.skills/ok", true),
            link("a", "/gone", false),
        ],
    };
    let b = AdapterScan { tool_key: s("cursor"), tool_display_name: s("Cursor"), entries: vec![dir("c", true, Some("1"), Some("1"))] };
    let only_a = diagnose_adapter_skills(&central(), &a);
    assert_eq!(only_a.len(), 2);
    assert_eq!(only_a[0].skill_name, "b");
    assert_eq!(only_a[1].skill_name, "a");
    let all = diagnose_skill_links(&central(), &vec![a, b]);
    let kinds: Vec<&str> = all.iter().map(|i| i.issue_type.as_str()).collect();
    assert_eq!(kinds, vec!["orphan", "broken_symlink", "physical_copy_identical"]);
    assert_eq!(all[2].tool_key, "cursor");
    assert!(diagnose_skill_links(&central(), &vec![]).is_empty());
}

#[test]
fn issue_kind_names() {
    assert_eq!(IssueKind::BrokenSymlink.as_string(), "broken_symlink");
    assert_eq!(IssueKind::WrongTargetSymlink.as_string(), "wrong_target_symlink");
    assert_eq!(IssueKind::PhysicalCopyIdentical.as_string(), "physical_copy_identical");
    assert_eq!(IssueKind::PhysicalCopyDiverged.as_string(), "physical_copy_diverged");
    assert_eq!(IssueKind::Orphan.as_string(), "orphan");
}

#[test]
fn unknown_tool_is_refused_before_the_action() {
    for action in ["relink", "delete", "frobnicate"] {
        match fix_skill_link(&s("vim"), false, &s(action), true) {
            Err(LinkError::NotFound(m)) => assert_eq!(m, "Unknown tool: vim"),
            _ => panic!("expected unknown tool"),
        }
    }
}

#[test]
fn relink_plan_needs_central_skill() {
    let steps = fix_skill_link(&s("cursor"), true, &s("relink"), true).ok().unwrap();
    assert_eq!(steps, vec![LinkStep::RemoveFound, LinkStep::LinkToCentral]);
    match fix_skill_link(&s("cursor"), true, &s("relink"), false) {
        Err(LinkError::NotFound(m)) => assert_eq!(m, "Central skill does not exist; cannot relink"),
        _ => panic!("expected not found"),
    }
}

#[test]
fn delete_plan_only_removes() {
    assert_eq!(fix_skill_link(&s("cursor"), true, &s("delete"), false).ok().unwrap(), vec![LinkStep::RemoveFound]);
    assert_eq!(fix_skill_link(&s("cursor"), true, &s("delete"), true).ok().unwrap(), vec![LinkStep::RemoveFound]);
}

#[test]
fn import_and_relink_installs_only_when_missing() {
    assert_eq!(
        fix_skill_link(&s("cursor"), true, &s("import_and_relink"), false).ok().unwrap(),
        vec![LinkStep::InstallIntoCentral, LinkStep::RegisterImportedSkill, LinkStep::RemoveFound, LinkStep::LinkToCentral]
    );
    assert_eq!(
        fix_skill_link(&s("cursor"), true, &s("import_and_relink"), true).ok().unwrap(),
        vec![LinkStep::RemoveFound, LinkStep::LinkToCentral]
    );
}

#[test]
fn unknown_action_is_invalid_input() {
    match fix_skill_link(&s("cursor"), true, &s("frobnicate"), true) {
        Err(LinkError::InvalidInput(m)) => assert_eq!(m, "Unknown action: frobnicate"),
        _ => panic!("expected invalid input"),
    }
    assert!(matches!(fix_skill_link(&s("cursor"), true, &s("Relink"), true), Err(LinkError::InvalidInput(_))));
}

#[test]
fn imported_record_fields() {
    let r = imported_skill_record(s("id1"), s("pdf"), Some(s("desc")), s("/t/pdf"), s("/c/pdf"), s("h"), 42);
    assert_eq!(r.id, "id1");
    assert_eq!(r.name, "pdf");
    assert_eq!(r.description, Some(s("desc")));
    assert_eq!(r.source_type, "import");
    assert_eq!(r.source_ref, Some(s("/t/pdf")));
    assert_eq!(r.source_ref_resolved, None);
    assert_eq!(r.central_path, "/c/pdf");
    assert_eq!(r.content_hash, Some(s("h")));
    assert!(r.enabled);
    assert_eq!((r.created_at, r.updated_at, r.last_checked_at), (42, 42, Some(42)));
    assert_eq!(r.status, "ok");
    assert_eq!(r.update_status, "local_only");
    assert_eq!(r.last_check_error, None);
}

#[test]
fn new_imported_record_gets_fresh_uuid_and_time() {
    let a = new_imported_skill_record(s("pdf"), None, s("/t/pdf"), s("/c/pdf"), s(""));
    let b = new_imported_skill_record(s("pdf"), None, s("/t/pdf"), s("/c/pdf"), s(""));
    assert_eq!(a.id.len(), 36);
    assert_eq!(a.id.chars().nth(14), Some('4'));
    assert_ne!(a.id, b.id);
    assert!(a.created_at > 1_600_000_000_000);
    assert_eq!(a.created_at, a.updated_at);
    assert_eq!(a.content_hash, Some(s("")));
}

fn issue(kind: &str) -> SkillLinkIssue {
    SkillLinkIssue {
        tool_key: s("windsurf"),
        tool_display_name: s("Windsurf"),
        skill_name: s("pdf"),
        found_path: s("/t/pdf"),
        issue_type: s(kind),
        central_path: None,
    }
}

#[test]
fn bulk_repair_acts_only_on_undecided_free_issues() {
    let cands = vec![
        FixCandidate { issue: issue("physical_copy_identical"), central_exists: true },
        FixCandidate { issue: issue("physical_copy_identical"), central_exists: false },
        FixCandidate { issue: issue("broken_symlink"), central_exists: false },
        FixCandidate { issue: issue("physical_copy_diverged"), central_exists: true },
        FixCandidate { issue: issue("orphan"), central_exists: true },
        FixCandidate { issue: issue("wrong_target_symlink"), central_exists: true },
    ];
    assert_eq!(
        fix_all_skill_links(&cands),
        vec![BulkAction::Relink, BulkAction::Skip, BulkAction::RemoveBroken, BulkAction::Skip, BulkAction::Skip, BulkAction::Skip]
    );
}

#[test]
fn bulk_counts_cover_every_issue() {
    let outcomes = vec![
        (BulkAction::Relink, true),
        (BulkAction::Relink, false),
        (BulkAction::RemoveBroken, true),
        (BulkAction::RemoveBroken, false),
        (BulkAction::Skip, true),
        (BulkAction::Skip, false),
    ];
    let r = FixAllResult::from_outcomes(&outcomes);
    assert_eq!((r.relinked, r.deleted, r.skipped), (1, 1, 4));
    assert_eq!(r.relinked + r.deleted + r.skipped, outcomes.len());
    let e = FixAllResult::from_outcomes(&vec![]);
    assert_eq!((e.relinked, e.deleted, e.skipped), (0, 0, 0));
}

#[test]
fn record_updates_one_count() {
    let mut r = FixAllResult::new();
    r.record(BulkAction::Relink, true);
    r.record(BulkAction::RemoveBroken, true);
    r.record(BulkAction::RemoveBroken, true);
    r.record(BulkAction::Relink, false);
    assert_eq!((r.relinked, r.deleted, r.skipped), (1, 2, 1));
}

#[test]
fn repeated_bulk_repair_changes_nothing() {
    let scan = |entries: Vec<EntryFacts>| AdapterScan { tool_key: s("windsurf"), tool_display_name: s("Windsurf"), entries };
    let before = vec![
        dir("same", true, Some("1"), Some("1")),
        link("dead", "/home/u/.skills/dead", false),
        dir("changed", true, Some("1"), Some("2")),
        dir("mine", false, None, None),
        link("other", "/opt/x", true),
    ];
    let issues1 = diagnose_skill_links(&central(), &vec![scan(before)]);
    let cands1: Vec<FixCandidate> = issues1.into_iter().map(|issue| FixCandidate { central_exists: issue.skill_name != "mine", issue }).collect();
    let actions1 = fix_all_skill_links(&cands1);
    let r1 = FixAllResult::from_outcomes(&actions1.iter().map(|a| (*a, true)).collect());
    assert_eq!((r1.relinked, r1.deleted, r1.skipped), (1, 1, 3));
    let after = vec![
        link("same", "/home/u/.skills/same", true),
        dir("changed", true, Some("1"), Some("2")),
        dir("mine", false, None, None),
        link("other", "/opt/x", true),
    ];
    let issues2 = diagnose_skill_links(&central(), &vec![scan(after)]);
    let cands2: Vec<FixCandidate> = issues2.into_iter().map(|issue| FixCandidate { central_exists: issue.skill_name != "mine", issue }).collect();
    let actions2 = fix_all_skill_links(&cands2);
    let r2 = FixAllResult::from_outcomes(&actions2.iter().map(|a| (*a, true)).collect());
    assert_eq!((r2.relinked, r2.deleted, r2.skipped), (0, 0, r1.skipped));
}

#[test]
fn registration_only_for_unknown_skills_and_joins_active_scenario() {
    let rec = || imported_skill_record(s("id9"), s("pdf"), None, s("/t/pdf"), s("/c/pdf"), s("h"), 1);
    assert!(register_plan(true, Some(s("sc1")), rec()).is_empty());
    assert!(register_plan(true, None, rec()).is_empty());
    let steps = register_plan(false, Some(s("sc1")), rec());
    assert_eq!(steps.len(), 2);
    match &steps[0] {
        RegisterStep::InsertSkill(r) => assert_eq!((r.id.as_str(), r.central_path.as_str()), ("id9", "/c/pdf")),
        _ => panic!("insert first"),
    }
    match &steps[1] {
        RegisterStep::AddToScenario { scenario_id, skill_id } => assert_eq!((scenario_id.as_str(), skill_id.as_str()), ("sc1", "id9")),
        _ => panic!("then join"),
    }
    let steps = register_plan(false, None, rec());
    assert_eq!(steps.len(), 1);
    assert!(matches!(&steps[0], RegisterStep::InsertSkill(_)));
}

#[test]
fn relinked_entry_is_not_reported_in_a_scan() {
    let a = AdapterScan {
        tool_key: s("windsurf"),
        tool_display_name: s("Windsurf"),
        entries: vec![link("pdf", "/home/u/.skills/pdf", true), dir("other", false, None, None)],
    };
    let issues = diagnose_adapter_skills(&central(), &a);
    assert!(issues.iter().all(|i| i.skill_name != "pdf"));
    assert_eq!(issues.len(), 1);
}
