use vstd::prelude::*;

verus! {

/// The program text of a project and the size of its output grid.
#[derive(Clone, Debug)]
pub struct TextData {
    pub content: String,
    pub size_x: u8,
    pub size_y: u8,
}

/// The text a new project starts with.
pub const DEFAULT_CONTENT: &'static str = " \n                # This is some test content.\n                ";

impl Default for TextData {
    fn default() -> (r: Self)
        ensures
            r.content@ == DEFAULT_CONTENT@,
            r.size_x == 20,
            r.size_y == 20,
    {
        TextData { content: String::from_str(DEFAULT_CONTENT), size_x: 20, size_y: 20 }
    }
}

/// A project as it is saved: a format version and its text.
#[derive(Clone, Debug)]
pub struct Project {
    pub version: u16,
    pub text_data: TextData,
}

/// The format version of new projects.
pub const PROJECT_VERSION: u16 = 2;

impl Default for Project {
    fn default() -> (r: Self)
        ensures
            r.version == PROJECT_VERSION,
            r.text_data.content@ == DEFAULT_CONTENT@,
            r.text_data.size_x == 20,
            r.text_data.size_y == 20,
    {
        Project { version: PROJECT_VERSION, text_data: TextData::default() }
    }
}

} // verus!
