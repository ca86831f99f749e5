use vstd::prelude::*;

verus! {

/// A task as a mathematical value: what the contracts speak of.
pub struct TaskModel {
    pub id: usize,
    pub description: Seq<char>,
    pub completed: bool,
}

/// One entry of the task list.
#[derive(Debug, PartialEq, Eq)]
pub struct TodoItem {
    pub id: usize,
    pub description: String,
    pub completed: bool,
}

impl View for TodoItem {
    type V = TaskModel;

    open spec fn view(&self) -> TaskModel {
        TaskModel { id: self.id, description: self.description@, completed: self.completed }
    }
}

impl TodoItem {
    /// A fresh, not yet completed task.
    pub fn new(id: usize, description: String) -> (r: TodoItem)
        ensures
            r@ == (TaskModel { id: id, description: description@, completed: false }),
    {
        TodoItem { id, description, completed: false }
    }

    /// A separate task with the same fields.
    pub fn duplicate(&self) -> (r: TodoItem)
        ensures
            r@ == self@,
    {
        TodoItem { id: self.id, description: self.description.clone(), completed: self.completed }
    }

    /// The word shown for the task's status when listing.
    pub fn status_label(&self) -> (r: &'static str)
        ensures
            self.completed ==> r@ == "Done"@,
            !self.completed ==> r@ == "Not Done"@,
    {
        if self.completed {
            "Done"
        } else {
            "Not Done"
        }
    }
}

} // verus!
