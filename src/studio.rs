use vstd::prelude::*;

use crate::project::{Project, DEFAULT_CONTENT, PROJECT_VERSION};

verus! {

/// The view the editor shows.
#[derive(Clone, Copy, Debug, PartialEq, Eq, Structural)]
pub enum Workspace {
    Home,
    Text,
    Render,
}

/// A file picked in an open or save dialog.
#[derive(Clone, Debug)]
pub enum FileDialogSelection {
    Open(String),
    Save(String),
}

/// The file work that a picked file asks of the caller.
#[derive(Clone, Debug)]
pub enum SelectionAction {
    Nothing,
    /// Read a project from this path and hand it to `finish_open`.
    OpenProject(String),
    /// Write the current project to this path.
    SaveProject(String),
}

/// How to save the current project.
#[derive(Clone, Debug)]
pub enum SaveAction {
    /// Write it to the path it was last saved to or opened from.
    WriteTo(String),
    /// Ask for a path first.
    AskForPath,
}

/// The editor's state, apart from its windows and widgets.
#[derive(Clone, Debug)]
pub struct LaserStudioApp {
    pub tab: Workspace,
    pub project: Project,
    pub show_about_window: bool,
    pub show_documentation_window: bool,
    pub current_path: Option<String>,
}

impl Default for LaserStudioApp {
    fn default() -> (r: Self)
        ensures
            r.tab == Workspace::Home,
            r.project.version == PROJECT_VERSION,
            r.project.text_data.content@ == DEFAULT_CONTENT@,
            !r.show_about_window,
            !r.show_documentation_window,
            r.current_path is None,
    {
        LaserStudioApp {
            tab: Workspace::Home,
            project: Project::default(),
            show_about_window: false,
            show_documentation_window: false,
            current_path: None,
        }
    }
}

impl LaserStudioApp {
    /// What a file picked in a dialog asks for; the state stays as it is.
    pub fn check_for_selection(&mut self, selection: Option<FileDialogSelection>) -> (r: SelectionAction)
        ensures
            *final(self) == *old(self),
            match selection {
                None => r is Nothing,
                Some(FileDialogSelection::Open(p)) => r is OpenProject && r->OpenProject_0 == p,
                Some(FileDialogSelection::Save(p)) => r is SaveProject && r->SaveProject_0 == p,
            },
    {
        match selection {
            None => SelectionAction::Nothing,
            Some(FileDialogSelection::Open(p)) => SelectionAction::OpenProject(p),
            Some(FileDialogSelection::Save(p)) => SelectionAction::SaveProject(p),
        }
    }

    /// Takes the outcome of opening a project: a project that could be read
    /// becomes the current one, shown in the text view; a failure changes
    /// nothing.
    pub fn finish_open(&mut self, loaded: Option<Project>)
        ensures
            match loaded {
                Some(p) => final(self).project == p && final(self).tab == Workspace::Text
                    && final(self).show_about_window == old(self).show_about_window
                    && final(self).show_documentation_window == old(self).show_documentation_window
                    && final(self).current_path == old(self).current_path,
                None => *final(self) == *old(self),
            },
    {
        match loaded {
            Some(p) => {
                self.project = p;
                self.tab = Workspace::Text;
            },
            None => {},
        }
    }

    /// How to save the current project: to its known path, else through a
    /// dialog.
    pub fn save_current_project(&self) -> (r: SaveAction)
        ensures
            match self.current_path {
                Some(p) => r is WriteTo && r->WriteTo_0 == p,
                None => r is AskForPath,
            },
    {
        match &self.current_path {
            Some(p) => SaveAction::WriteTo(p.clone()),
            None => SaveAction::AskForPath,
        }
    }

    /// Starts a new project and shows it in the text view.
    pub fn new_project(&mut self)
        ensures
            final(self).project.version == PROJECT_VERSION,
            final(self).project.text_data.content@ == DEFAULT_CONTENT@,
            final(self).tab == Workspace::Text,
            final(self).current_path == old(self).current_path,
    {
        self.project = Project::default();
        self.tab = Workspace::Text;
    }
}

} // verus!
