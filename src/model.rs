//! Records of the command library, the error taxonomy and the response
//! envelope.

use vstd::prelude::*;

verus! {

/// A command as listed and searched. `category` is the legacy numeric
/// category, shown through `category_label`.
#[derive(Clone, Debug, PartialEq, Eq)]
pub struct Command {
    pub id: i64,
    pub name: String,
    pub category: i64,
    pub description: String,
}

impl Command {
    /// A field-by-field copy.
    pub fn duplicate(&self) -> (r: Command)
        ensures
            r == *self,
    {
        Command {
            id: self.id,
            name: self.name.clone(),
            category: self.category,
            description: self.description.clone(),
        }
    }
}

/// A stored section of a command's manual page.
#[derive(Clone, Debug, PartialEq, Eq)]
pub struct CommandSectionRow {
    pub id: i64,
    pub command_id: i64,
    pub title: String,
    pub content: String,
}

/// A section as shown in a command's detail.
#[derive(Clone, Debug, PartialEq, Eq)]
pub struct CommandSection {
    pub title: String,
    pub content: String,
}

/// A command with its ordered sections and its optional TLDR text.
#[derive(Clone, Debug, PartialEq, Eq)]
pub struct CommandDetail {
    pub id: i64,
    pub name: String,
    pub category: i64,
    pub description: String,
    pub sections: Vec<CommandSection>,
    pub tldr: Option<String>,
}

/// A stored tip.
#[derive(Clone, Debug, PartialEq, Eq)]
pub struct TipRow {
    pub id: i64,
    pub title: String,
}

/// A stored section of a tip.
#[derive(Clone, Debug, PartialEq, Eq)]
pub struct TipSectionRow {
    pub id: i64,
    pub tip_id: i64,
    pub position: i64,
    pub section_type: i64,
    pub data1: String,
    pub data2: String,
    pub extra: String,
}

/// A section as shown in a tip.
#[derive(Clone, Debug, PartialEq, Eq)]
pub struct TipSection {
    pub section_type: i64,
    pub data1: String,
    pub data2: String,
    pub extra: String,
}

/// A tip with its sections in position order.
#[derive(Clone, Debug, PartialEq, Eq)]
pub struct Tip {
    pub id: i64,
    pub title: String,
    pub sections: Vec<TipSection>,
}

/// A stored category of the browsing hierarchy.
#[derive(Clone, Debug, PartialEq, Eq)]
pub struct BasicCategoryRow {
    pub id: i64,
    pub title: String,
    pub position: i64,
}

/// A category of the browsing hierarchy as listed in detail.
#[derive(Clone, Debug, PartialEq, Eq)]
pub struct BasicCategory {
    pub id: i64,
    pub title: String,
    pub position: i64,
    pub description: Option<String>,
    pub icon: Option<String>,
}

/// A stored group of commands inside a browsing category.
#[derive(Clone, Debug, PartialEq, Eq)]
pub struct BasicGroupRow {
    pub id: i64,
    pub category_id: i64,
    pub description: String,
}

/// A stored command of a browsing group; `command` may span several lines.
#[derive(Clone, Debug, PartialEq, Eq)]
pub struct BasicCommandRow {
    pub id: i64,
    pub group_id: i64,
    pub command: String,
    pub mans: String,
}

impl BasicCategoryRow {
    /// A field-by-field copy.
    pub fn duplicate(&self) -> (r: BasicCategoryRow)
        ensures
            r == *self,
    {
        BasicCategoryRow { id: self.id, title: self.title.clone(), position: self.position }
    }
}

impl BasicGroupRow {
    /// A field-by-field copy.
    pub fn duplicate(&self) -> (r: BasicGroupRow)
        ensures
            r == *self,
    {
        BasicGroupRow {
            id: self.id,
            category_id: self.category_id,
            description: self.description.clone(),
        }
    }
}

impl BasicCommandRow {
    /// A field-by-field copy.
    pub fn duplicate(&self) -> (r: BasicCommandRow)
        ensures
            r == *self,
    {
        BasicCommandRow {
            id: self.id,
            group_id: self.group_id,
            command: self.command.clone(),
            mans: self.mans.clone(),
        }
    }
}

/// Counts reported by the statistics endpoint.
#[derive(Clone, Copy, Debug, PartialEq, Eq)]
pub struct AppStats {
    pub total_commands: i64,
    pub total_categories: i64,
    pub total_tips: i64,
    pub total_basic_categories: i64,
}

/// A free-text search request: the query, an optional legacy category id
/// written as text, and an optional row limit.
#[derive(Clone, Debug, PartialEq, Eq)]
pub struct SearchQuery {
    pub q: String,
    pub category: Option<String>,
    pub limit: Option<i64>,
}

/// The failures a request can end in.
#[derive(Clone, Debug, PartialEq, Eq)]
pub enum AppError {
    /// The store could not be read; holds the store's own report, which is
    /// never shown to callers.
    DatabaseError(String),
    /// No command has the requested id.
    CommandNotFound,
    /// A caller's input breaks a precondition.
    InvalidInput(String),
    /// A fault outside the store, such as a poisoned lock.
    InternalError(String),
}

/// The envelope around every response.
#[derive(Clone, Debug, PartialEq, Eq)]
pub struct ApiResponse<T> {
    pub success: bool,
    pub data: Option<T>,
    pub message: Option<String>,
}

impl<T> ApiResponse<T> {
    /// A successful response carrying `data`.
    pub fn ok(data: T) -> (r: ApiResponse<T>)
        ensures
            r.success,
            r.data == Some(data),
            r.message is None,
    {
        ApiResponse { success: true, data: Some(data), message: None }
    }
}

} // verus!
