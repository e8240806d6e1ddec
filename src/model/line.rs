use vstd::prelude::*;

verus! {

/// What the pipeline has decided about a line so far.
#[derive(Debug, PartialEq, Eq, Clone, Copy, Default)]
pub struct LineFlags {
    /// Keep the line out of the visible output.
    pub gag: bool,
    /// At least one trigger or alias fired on the line.
    pub matched: bool,
    /// Skip every listener chain.
    pub bypass_script: bool,
    /// The line is the server's prompt (no newline ended it).
    pub prompt: bool,
}

/// A line of text, from the server or from the user, with its flags. A
/// replacement, when set, is what is shown; matching still uses the content.
#[derive(Debug, PartialEq, Eq, Clone)]
pub struct Line {
    pub content: String,
    pub replacement: Option<String>,
    pub flags: LineFlags,
}

/// Flags of a fresh line: all unset.
pub open spec fn no_flags() -> LineFlags {
    LineFlags { gag: false, matched: false, bypass_script: false, prompt: false }
}

impl Line {
    /// A line holding `content`, with no replacement and no flag set.
    pub fn new(content: &str) -> (r: Line)
        ensures
            r.content@ == content@,
            r.replacement is None,
            r.flags == no_flags(),
    {
        Line {
            content: String::from_str(content),
            replacement: None,
            flags: LineFlags { gag: false, matched: false, bypass_script: false, prompt: false },
        }
    }

    /// A copy of the line, equal to it in every field.
    pub fn duplicate(&self) -> (r: Line)
        ensures
            r == *self,
    {
        let replacement = match &self.replacement {
            Some(s) => Some(s.clone()),
            None => None,
        };
        Line { content: self.content.clone(), replacement, flags: self.flags }
    }

    /// Sets or clears the `gag` flag.
    pub fn gag(&mut self, gag: bool)
        ensures
            final(self).flags == (LineFlags { gag, ..old(self).flags }),
            final(self).content == old(self).content,
            final(self).replacement == old(self).replacement,
    {
        self.flags.gag = gag;
    }

    /// Sets the text shown in place of the content.
    pub fn replace(&mut self, text: &str)
        ensures
            final(self).replacement matches Some(s) && s@ == text@,
            final(self).content == old(self).content,
            final(self).flags == old(self).flags,
    {
        self.replacement = Some(String::from_str(text));
    }

    /// The text to show: the replacement if there is one, else the content.
    pub fn shown(&self) -> (r: &String)
        ensures
            r@ == match self.replacement {
                Some(s) => s@,
                None => self.content@,
            },
    {
        match &self.replacement {
            Some(s) => s,
            None => &self.content,
        }
    }
}

} // verus!
