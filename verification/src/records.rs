//! The rows of the skill store that the library reads and writes.
use vstd::prelude::*;
use crate::strings::opt_view;

verus! {

/// A skill as the store records it.
#[derive(Clone, Debug)]
pub struct SkillRecord {
    pub id: String,
    pub name: String,
    pub description: Option<String>,
    pub source_type: String,
    pub source_ref: Option<String>,
    pub source_ref_resolved: Option<String>,
    pub source_subpath: Option<String>,
    pub source_branch: Option<String>,
    pub source_revision: Option<String>,
    pub remote_revision: Option<String>,
    pub central_path: String,
    pub content_hash: Option<String>,
    pub enabled: bool,
    pub created_at: i64,
    pub updated_at: i64,
    pub status: String,
    pub update_status: String,
    pub last_checked_at: Option<i64>,
    pub last_check_error: Option<String>,
}

/// A scenario as the store records it.
#[derive(Clone, Debug)]
pub struct ScenarioRecord {
    pub id: String,
    pub name: String,
    pub description: Option<String>,
    pub icon: Option<String>,
    pub sort_order: i32,
    pub created_at: i64,
    pub updated_at: i64,
}

/// A skill synced into a tool, with the sync mode.
#[derive(Clone, Debug)]
pub struct TargetRecord {
    pub skill_id: String,
    pub tool: String,
    pub mode: String,
}

/// Whether a tool is enabled for a skill within a scenario.
#[derive(Clone, Debug)]
pub struct ToolToggle {
    pub tool: String,
    pub enabled: bool,
}

/// The mathematical value of a [`SkillRecord`].
pub struct SkillRecordView {
    pub id: Seq<char>,
    pub name: Seq<char>,
    pub description: Option<Seq<char>>,
    pub source_type: Seq<char>,
    pub source_ref: Option<Seq<char>>,
    pub source_ref_resolved: Option<Seq<char>>,
    pub source_subpath: Option<Seq<char>>,
    pub source_branch: Option<Seq<char>>,
    pub source_revision: Option<Seq<char>>,
    pub remote_revision: Option<Seq<char>>,
    pub central_path: Seq<char>,
    pub content_hash: Option<Seq<char>>,
    pub enabled: bool,
    pub created_at: i64,
    pub updated_at: i64,
    pub status: Seq<char>,
    pub update_status: Seq<char>,
    pub last_checked_at: Option<i64>,
    pub last_check_error: Option<Seq<char>>,
}

impl View for SkillRecord {
    type V = SkillRecordView;

    open spec fn view(&self) -> SkillRecordView {
        SkillRecordView {
            id: self.id@,
            name: self.name@,
            description: opt_view(self.description),
            source_type: self.source_type@,
            source_ref: opt_view(self.source_ref),
            source_ref_resolved: opt_view(self.source_ref_resolved),
            source_subpath: opt_view(self.source_subpath),
            source_branch: opt_view(self.source_branch),
            source_revision: opt_view(self.source_revision),
            remote_revision: opt_view(self.remote_revision),
            central_path: self.central_path@,
            content_hash: opt_view(self.content_hash),
            enabled: self.enabled,
            created_at: self.created_at,
            updated_at: self.updated_at,
            status: self.status@,
            update_status: self.update_status@,
            last_checked_at: self.last_checked_at,
            last_check_error: opt_view(self.last_check_error),
        }
    }
}

/// The mathematical value of a [`ScenarioRecord`].
pub struct ScenarioRecordView {
    pub id: Seq<char>,
    pub name: Seq<char>,
    pub description: Option<Seq<char>>,
    pub icon: Option<Seq<char>>,
    pub sort_order: i32,
    pub created_at: i64,
    pub updated_at: i64,
}

impl View for ScenarioRecord {
    type V = ScenarioRecordView;

    open spec fn view(&self) -> ScenarioRecordView {
        ScenarioRecordView {
            id: self.id@,
            name: self.name@,
            description: opt_view(self.description),
            icon: opt_view(self.icon),
            sort_order: self.sort_order,
            created_at: self.created_at,
            updated_at: self.updated_at,
        }
    }
}

} // verus!
