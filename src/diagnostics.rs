use vstd::prelude::*;

verus! {

/// One diagnostic record of a build tool. A record without a message is a
/// control or metadata record.
#[derive(Clone, Debug, PartialEq, Eq, Hash)]
pub struct Diagnostic {
    pub message: Option<Message>,
}

#[derive(Clone, Debug, PartialEq, Eq, Hash)]
pub struct Message {
    pub level: Level,
    pub rendered: String,
    pub spans: Vec<Span>,
}

/// Severity of a message, from the least to the most severe.
#[derive(Clone, Copy, Debug, PartialEq, Eq, Hash, Structural)]
pub enum Level {
    Help,
    Note,
    Warning,
    Error,
}

/// A source location: lines and columns are 1-based and inclusive, lines
/// are numbered as after the change.
#[derive(Clone, Debug, PartialEq, Eq, Hash)]
pub struct Span {
    pub file_name: String,
    pub line_start: usize,
    pub line_end: usize,
    pub column_start: usize,
    pub column_end: usize,
    pub is_primary: bool,
}

impl Message {
    /// Return the first primary span, if there is any.
    pub fn primary_span(&self) -> (r: Option<&Span>)
        ensures
            match r {
                Some(s) => exists|i: int|
                    0 <= i < self.spans@.len() && self.spans@[i] == *s && s.is_primary && forall|
                        j: int,
                    | 0 <= j < i ==> !(#[trigger] self.spans@[j]).is_primary,
                None => forall|i: int|
                    0 <= i < self.spans@.len() ==> !(#[trigger] self.spans@[i]).is_primary,
            },
    {
        let mut i: usize = 0;
        while i < self.spans.len()
            invariant
                i <= self.spans@.len(),
                forall|j: int| 0 <= j < i ==> !(#[trigger] self.spans@[j]).is_primary,
            decreases self.spans@.len() - i,
        {
            if self.spans[i].is_primary {
                return Some(&self.spans[i]);
            }
            i += 1;
        }
        None
    }
}

} // verus!
