//! Projects and their documents, as the store hands them over row by row.

use vstd::prelude::*;

verus! {

/// Name of the project that holds the documents that belong to no other. It
/// is created the first time it is needed.
pub const UNASSIGNED_PROJECT_NAME: &'static str = "Unassigned";

/// Identifier that stands for "no project".
pub const DEFAULT_PROJECT_ID: i64 = 0;

/// Name that a new document starts with.
pub const NEW_DOCUMENT_NAME: &'static str = "New Document";

/// Text that a new document starts with.
pub const NEW_DOCUMENT_TEXT: &'static str = "Start editing";

/// A project with its documents. The three lists run in parallel, one place
/// for each document, in the order of the documents' identifiers.
#[derive(Debug, PartialEq, Eq)]
pub struct Project {
    pub id: i64,
    pub name: String,
    /// Identifiers of the project's documents.
    pub activities: Vec<i64>,
    /// For each document, the activity it was made from, if any.
    pub activity_ids: Vec<Option<i64>>,
    /// For each document, its name.
    pub activity_names: Vec<String>,
    pub created_at: String,
}

/// One document of a project as the store reports it: its identifier, the
/// activity it was made from, and its name.
#[derive(Debug, PartialEq, Eq)]
pub struct DocumentRow {
    pub id: i64,
    pub activity_id: Option<i64>,
    pub document_name: String,
}

/// Mathematical value of a list of names.
pub open spec fn name_models(names: Seq<String>) -> Seq<Seq<char>> {
    Seq::new(names.len(), |i: int| names[i]@)
}

/// Takes the rows of a project's documents apart into the three parallel
/// lists: identifiers, source activities and names, each in the order of the
/// rows.
pub fn fetch_activities_by_project_id(rows: Vec<DocumentRow>) -> (lists: (
    Vec<i64>,
    Vec<Option<i64>>,
    Vec<String>,
))
    ensures
        lists.0@ == Seq::new(rows@.len(), |i: int| rows@[i].id),
        lists.1@ == Seq::new(rows@.len(), |i: int| rows@[i].activity_id),
        name_models(lists.2@) == Seq::new(rows@.len(), |i: int| rows@[i].document_name@),
{
    let ghost all = rows@;
    let n: usize = rows.len();
    let mut rest = rows;
    let mut reversed: Vec<DocumentRow> = Vec::new();
    let mut i: usize = 0;
    while i < n
        invariant
            i <= n,
            all.len() == n,
            rest@.len() == n - i,
            reversed@.len() == i,
            forall|j: int| 0 <= j < n - i ==> rest@[j] == all[j],
            forall|j: int| 0 <= j < i ==> reversed@[j] == all[n - 1 - j],
        decreases n - i,
    {
        let row = rest.pop().unwrap();
        reversed.push(row);
        i = i + 1;
    }
    let mut ids: Vec<i64> = Vec::new();
    let mut activity_ids: Vec<Option<i64>> = Vec::new();
    let mut names: Vec<String> = Vec::new();
    let mut done: usize = 0;
    while done < n
        invariant
            done <= n,
            all.len() == n,
            all == rows@,
            reversed@.len() == n - done,
            forall|j: int| 0 <= j < n - done ==> reversed@[j] == all[n - 1 - j],
            ids@.len() == done,
            activity_ids@.len() == done,
            names@.len() == done,
            forall|j: int| 0 <= j < done ==> ids@[j] == all[j].id,
            forall|j: int| 0 <= j < done ==> activity_ids@[j] == all[j].activity_id,
            forall|j: int| 0 <= j < done ==> names@[j]@ == all[j].document_name@,
        decreases n - done,
    {
        let row = reversed.pop().unwrap();
        assert(row == all[done as int]);
        let DocumentRow { id, activity_id, document_name } = row;
        ids.push(id);
        activity_ids.push(activity_id);
        names.push(document_name);
        done = done + 1;
    }
    proof {
        assert(ids@ =~= Seq::new(rows@.len(), |i: int| rows@[i].id));
        assert(activity_ids@ =~= Seq::new(rows@.len(), |i: int| rows@[i].activity_id));
        assert(name_models(names@) =~= Seq::new(rows@.len(), |i: int| rows@[i].document_name@));
    }
    (ids, activity_ids, names)
}

impl Project {
    /// A project as the store lists it, before its documents are known.
    pub fn new(id: i64, name: String, created_at: String) -> (project: Project)
        ensures
            project.id == id,
            project.name@ == name@,
            project.created_at@ == created_at@,
            project.activities@.len() == 0,
            project.activity_ids@.len() == 0,
            project.activity_names@.len() == 0,
    {
        Project {
            id,
            name,
            activities: Vec::new(),
            activity_ids: Vec::new(),
            activity_names: Vec::new(),
            created_at,
        }
    }

    /// Whether the three lists of documents have one length.
    pub open spec fn lists_agree(self) -> bool {
        self.activities@.len() == self.activity_ids@.len() && self.activities@.len()
            == self.activity_names@.len()
    }

    /// Fills in the project's documents from their rows.
    pub fn with_documents(self, rows: Vec<DocumentRow>) -> (project: Project)
        ensures
            project.id == self.id,
            project.name@ == self.name@,
            project.created_at@ == self.created_at@,
            project.activities@ == Seq::new(rows@.len(), |i: int| rows@[i].id),
            project.activity_ids@ == Seq::new(rows@.len(), |i: int| rows@[i].activity_id),
            name_models(project.activity_names@) == Seq::new(
                rows@.len(),
                |i: int| rows@[i].document_name@,
            ),
            project.lists_agree(),
    {
        let ghost n = rows@.len();
        let (activities, activity_ids, activity_names) = fetch_activities_by_project_id(rows);
        proof {
            assert(name_models(activity_names@).len() == n);
        }
        Project {
            id: self.id,
            name: self.name,
            activities,
            activity_ids,
            activity_names,
            created_at: self.created_at,
        }
    }
}

} // verus!
