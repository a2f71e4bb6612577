use vstd::prelude::*;
use vstd::string::StringSliceAdditionalSpecFns;

use crate::errors::Error;
use crate::lexer::tokens;
use crate::parser::{diagnoses, parse_with_diagnostics, program, raw_error, view_all, Assignment};

verus! {

/// What the render view keeps between passes: the statements to run, the
/// syntax errors to show, and whether the last parse or pass failed.
pub struct RenderState {
    pub statements: Vec<Assignment>,
    pub parser_errors: Vec<Error>,
    pub encountered_parser_error: bool,
    pub encountered_eval_error: bool,
    pub eval_frozen: bool,
}

impl RenderState {
    /// A view with nothing parsed yet.
    pub fn new() -> (r: Self)
        ensures
            r.statements@.len() == 0,
            r.parser_errors@.len() == 0,
            !r.encountered_parser_error,
            !r.encountered_eval_error,
            !r.eval_frozen,
    {
        RenderState {
            statements: Vec::new(),
            parser_errors: Vec::new(),
            encountered_parser_error: false,
            encountered_eval_error: false,
            eval_frozen: false,
        }
    }

    /// Parses `text` afresh when the view is shown: evaluation resumes and
    /// the flags are cleared. A text with syntax errors keeps their
    /// diagnostics and leaves no statements, so the next pass runs none.
    pub fn switch_to(&mut self, text: &str)
        requires
            text.spec_bytes().len() < usize::MAX,
        ensures
            !final(self).eval_frozen,
            !final(self).encountered_eval_error,
            program(text@).1.len() == 0 ==> {
                &&& view_all(final(self).statements@) == program(text@).0
                &&& final(self).parser_errors@.len() == 0
                &&& !final(self).encountered_parser_error
            },
            program(text@).1.len() > 0 ==> {
                &&& final(self).statements@.len() == 0
                &&& final(self).encountered_parser_error
                &&& final(self).parser_errors@.len() == program(text@).1.len()
                &&& forall|k: int|
                    0 <= k < program(text@).1.len() ==> diagnoses(
                        #[trigger] final(self).parser_errors@[k],
                        text.spec_bytes(),
                        raw_error(tokens(text@), program(text@).1[k]),
                    )
            },
    {
        self.eval_frozen = false;
        self.encountered_eval_error = false;
        match parse_with_diagnostics(text) {
            Ok(statements) => {
                self.statements = statements;
                self.parser_errors = Vec::new();
                self.encountered_parser_error = false;
            },
            Err(errors) => {
                self.statements = Vec::new();
                self.parser_errors = errors;
                self.encountered_parser_error = true;
            },
        }
    }

    /// Takes the indices of the points that failed in a pass: any failure
    /// marks the pass and freezes evaluation.
    pub fn finish_pass(&mut self, failed: &Vec<u16>)
        ensures
            final(self).encountered_eval_error == (failed@.len() > 0),
            final(self).eval_frozen == (old(self).eval_frozen || failed@.len() > 0),
            final(self).encountered_parser_error == old(self).encountered_parser_error,
            final(self).statements == old(self).statements,
            final(self).parser_errors == old(self).parser_errors,
    {
        self.encountered_eval_error = failed.len() > 0;
        if failed.len() > 0 {
            self.eval_frozen = true;
        }
    }
}

} // verus!
