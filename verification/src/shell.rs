use vstd::prelude::*;

verus! {

/// The workspace modes that a selected project can be viewed in.
#[derive(Clone, Copy, Debug, PartialEq, Eq, Structural)]
pub enum Activity {
    Overview,
    Files,
    Search,
}

/// Every activity, in the order the workspace navigation shows them.
pub fn all_activities() -> (all: [Activity; 3])
    ensures
        all@ == seq![Activity::Overview, Activity::Files, Activity::Search],
{
    [Activity::Overview, Activity::Files, Activity::Search]
}

pub open spec fn activity_label(activity: Activity) -> Seq<char> {
    match activity {
        Activity::Overview => "Overview"@,
        Activity::Files => "Files"@,
        Activity::Search => "Search"@,
    }
}

impl Activity {
    /// The name shown for this activity.
    pub fn label(self) -> (label: &'static str)
        ensures
            label@ == activity_label(self),
    {
        match self {
            Activity::Overview => "Overview",
            Activity::Files => "Files",
            Activity::Search => "Search",
        }
    }
}

/// The row of the selected project within a filtered (and possibly reordered)
/// list of project indices: the first row that holds the selected index, or
/// `None` when nothing is selected or the selection is filtered out.
pub fn visible_project_row(filtered: &[usize], selected_project: Option<usize>) -> (row: Option<usize>)
    ensures
        selected_project is None ==> row is None,
        selected_project matches Some(selected) ==> match row {
            Some(r) => r < filtered@.len() && filtered@[r as int] == selected
                && forall|j: int| 0 <= j < r ==> filtered@[j] != selected,
            None => forall|j: int| 0 <= j < filtered@.len() ==> filtered@[j] != selected,
        },
{
    match selected_project {
        None => None,
        Some(selected) => {
            let mut i: usize = 0;
            while i < filtered.len()
                invariant
                    i <= filtered@.len(),
                    selected_project == Some(selected),
                    forall|j: int| 0 <= j < i ==> filtered@[j] != selected,
                decreases filtered@.len() - i,
            {
                if filtered[i] == selected {
                    return Some(i);
                }
                i = i + 1;
            }
            None
        },
    }
}

} // verus!
