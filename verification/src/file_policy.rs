//! Decisions on file operations.
use vstd::prelude::*;
use crate::file_types::FileCallbackDecision;
use crate::text;

verus! {

/// The name of an operation.
pub open spec fn operation_text(op_code: u32) -> Seq<char> {
    if op_code == 1 {
        "CREATE"@
    } else if op_code == 2 {
        "WRITE"@
    } else if op_code == 3 {
        "SET_INFO"@
    } else {
        "UNKNOWN"@
    }
}

/// How an operation is named.
pub fn op_name(op_code: u32) -> (s: &'static str)
    ensures
        s@ == operation_text(op_code),
{
    if op_code == 1 {
        "CREATE"
    } else if op_code == 2 {
        "WRITE"
    } else if op_code == 3 {
        "SET_INFO"
    } else {
        "UNKNOWN"
    }
}

/// Whether a text ends with another.
pub open spec fn ends_with(s: Seq<char>, end: Seq<char>) -> bool {
    s.len() >= end.len() && s.subrange(s.len() - end.len(), s.len() as int) == end
}

/// Whether a text ends with another.
pub fn has_suffix(s: &str, end: &str) -> (b: bool)
    ensures
        b == ends_with(s@, end@),
{
    let a: Vec<char> = text::chars_of(s);
    let e: Vec<char> = text::chars_of(end);
    if a.len() < e.len() {
        return false;
    }
    let from: usize = a.len() - e.len();
    let ghost tail = a@.subrange(from as int, a@.len() as int);
    let mut i: usize = 0;
    while i < e.len()
        invariant
            i <= e@.len(),
            a@ == s@,
            e@ == end@,
            from + e@.len() == a@.len(),
            a@.len() <= usize::MAX,
            tail == a@.subrange(from as int, a@.len() as int),
            forall|j: int| 0 <= j < i ==> #[trigger] tail[j] == e@[j],
        decreases e@.len() - i,
    {
        if a[from + i] != e[i] {
            assert(tail[i as int] != e@[i as int]);
            return false;
        }
        i += 1;
    }
    assert(tail =~= e@);
    true
}

/// The decision on an operation where writing to text files is denied.
pub open spec fn text_decision(path: Seq<char>, op_code: u32) -> FileCallbackDecision {
    if ends_with(path, ".txt"@) && op_code == 2 {
        FileCallbackDecision::Deny
    } else {
        FileCallbackDecision::Allow
    }
}

/// Denies writing to text files, and allows everything else.
pub fn deny_text_writes(path: &str, op_code: u32) -> (d: FileCallbackDecision)
    ensures
        d == text_decision(path@, op_code),
{
    if has_suffix(path, ".txt") && op_code == 2 {
        FileCallbackDecision::Deny
    } else {
        FileCallbackDecision::Allow
    }
}

/// Redirects one file to another in the directory in which a third was last seen.
pub struct Redirector {
    /// Name of the file whose directory is looked for.
    pub detect: String,
    /// Name of the file that is redirected.
    pub source: String,
    /// Name of the file that it is redirected to.
    pub target: String,
    /// The directory, once it is known.
    pub prefix: Option<String>,
}

impl Redirector {
    /// The directory after an operation on a path.
    pub open spec fn prefix_after(&self, path: Seq<char>) -> Option<Seq<char>> {
        if ends_with(path, self.detect@) {
            Some(path.take(path.len() - self.detect@.len()))
        } else {
            match self.prefix {
                Some(p) => Some(p@),
                None => None,
            }
        }
    }

    /// What is known after an operation on a path, and the decision on it.
    pub open spec fn decides(
        &self,
        after: Redirector,
        path: Seq<char>,
        d: FileCallbackDecision,
    ) -> bool {
        &&& after.detect == self.detect
        &&& after.source == self.source
        &&& after.target == self.target
        &&& match (self.prefix_after(path), after.prefix) {
            (Some(a), Some(b)) => a == b@,
            (None, None) => true,
            _ => false,
        }
        &&& match self.prefix_after(path) {
            Some(prefix) if ends_with(path, self.source@) => d
                matches FileCallbackDecision::Redirect(to) && to@ == prefix + self.target@,
            _ => d is Allow,
        }
    }

    /// Takes note of an operation on a path and decides on it.
    pub fn on_event(&mut self, path: &str) -> (d: FileCallbackDecision)
        ensures
            old(self).decides(*final(self), path@, d),
    {
        if has_suffix(path, self.detect.as_str()) {
            let chars: Vec<char> = text::chars_of(path);
            let name: Vec<char> = text::chars_of(self.detect.as_str());
            let n: usize = chars.len() - name.len();
            let prefix: String = text::text_of(chars.as_slice(), 0, n);
            assert(prefix@ =~= path@.take(n as int));
            self.prefix = Some(prefix);
        }
        if has_suffix(path, self.source.as_str()) {
            if let Some(prefix) = &self.prefix {
                let mut to = String::new();
                text::push_text(&mut to, prefix.as_str());
                text::push_text(&mut to, self.target.as_str());
                assert(to@ =~= prefix@ + self.target@);
                return FileCallbackDecision::Redirect(to);
            }
        }
        FileCallbackDecision::Allow
    }
}

/// A text ends with another exactly if it is something with that behind it.
pub proof fn law_suffix_is_what_stands_behind(x: Seq<char>, end: Seq<char>, s: Seq<char>)
    ensures
        ends_with(x + end, end),
        ends_with(s, end) ==> s.take(s.len() - end.len()) + end == s,
{
    assert((x + end).subrange(x.len() as int, (x + end).len() as int) =~= end);
    if ends_with(s, end) {
        assert(s.take(s.len() - end.len()) + end =~= s);
    }
}

/// Writing to any text file is denied; other operations on it are allowed, and so is everything on
/// a path that does not end in `.txt`.
pub proof fn law_text_writes_are_denied(x: Seq<char>, s: Seq<char>, op_code: u32)
    ensures
        text_decision(x + seq!['.', 't', 'x', 't'], 2) is Deny,
        op_code != 2 ==> text_decision(s, op_code) is Allow,
        s.len() < 4 || s.skip(s.len() - 4) != seq!['.', 't', 'x', 't'] ==> text_decision(
            s,
            op_code,
        ) is Allow,
        operation_text(2) == seq!['W', 'R', 'I', 'T', 'E'],
{
    reveal_strlit(".txt");
    reveal_strlit("WRITE");
    assert(".txt"@ =~= seq!['.', 't', 'x', 't']);
    assert("WRITE"@ =~= seq!['W', 'R', 'I', 'T', 'E']);
    law_suffix_is_what_stands_behind(x, ".txt"@, s);
    if s.len() >= 4 {
        assert(s.subrange(s.len() - 4, s.len() as int) =~= s.skip(s.len() - 4));
    }
}

/// Once the file that is looked for was seen in a directory, every operation on the redirected
/// file, wherever it is, goes to the other file in that directory. Until then nothing is
/// redirected.
pub proof fn law_redirected_to_where_it_was_seen(
    a: Redirector,
    b: Redirector,
    c: Redirector,
    directory: Seq<char>,
    x: Seq<char>,
    d: FileCallbackDecision,
    e: FileCallbackDecision,
)
    requires
        a.decides(b, directory + a.detect@, d),
        b.decides(c, x + a.source@, e),
        !ends_with(x + a.source@, a.detect@),
    ensures
        e matches FileCallbackDecision::Redirect(to) && to@ == directory + a.target@,
        b.prefix matches Some(p) && p@ == directory,
{
    law_suffix_is_what_stands_behind(directory, a.detect@, directory);
    law_suffix_is_what_stands_behind(x, a.source@, x);
    let path = directory + a.detect@;
    assert(path.take(path.len() - a.detect@.len()) =~= directory);
}

/// What is neither looked for nor redirected is allowed, and nothing is learnt from it.
pub proof fn law_other_files_are_allowed(
    a: Redirector,
    b: Redirector,
    path: Seq<char>,
    d: FileCallbackDecision,
)
    requires
        a.decides(b, path, d),
        !ends_with(path, a.source@),
    ensures
        d is Allow,
        !ends_with(path, a.detect@) ==> (a.prefix is Some == b.prefix is Some) && (a.prefix is Some
            ==> a.prefix->0@ == b.prefix->0@),
{
}

} // verus!
