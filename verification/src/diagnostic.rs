use vstd::prelude::*;
use vstd::string::StringExecFns;
use crate::span::Span;

verus! {

/// A message anchored to a source span. Every user-visible error carries at
/// least one primary label; further labels add context.
#[derive(Debug, PartialEq)]
pub struct Label {
    pub message: String,
    pub primary: bool,
    pub span: Span,
}

/// Mathematical model of a [`Label`].
#[verifier::ext_equal]
pub struct LabelV {
    pub message: Seq<char>,
    pub primary: bool,
    pub span: Span,
}

impl View for Label {
    type V = LabelV;

    open spec fn view(&self) -> LabelV {
        LabelV { message: self.message@, primary: self.primary, span: self.span }
    }
}

impl Label {
    /// The label that names what went wrong, anchored where it went wrong.
    pub fn primary(message: String, span: Span) -> (l: Label)
        ensures
            l@ == (LabelV { message: message@, primary: true, span }),
    {
        Label { message, primary: true, span }
    }

    /// A supporting label adding context around the primary one.
    pub fn context(message: String, span: Span) -> (l: Label)
        ensures
            l@ == (LabelV { message: message@, primary: false, span }),
    {
        Label { message, primary: false, span }
    }
}

/// A remediation note attached to a diagnostic, not anchored to a span.
#[derive(Debug, PartialEq)]
pub enum Note {
    /// A pointer into the reference documentation: a topic and its URL.
    SeeDocs(String, String),
    /// A pointer to the error-handling documentation.
    SeeErrorDocs,
    /// A suggested rewrite: what it achieves, and example source lines.
    Solution { title: String, code: Vec<String> },
}

/// Mathematical model of a [`Note`].
#[verifier::ext_equal]
pub enum NoteV {
    SeeDocs(Seq<char>, Seq<char>),
    SeeErrorDocs,
    Solution { title: Seq<char>, code: Seq<Seq<char>> },
}

/// The views of a vector of strings.
pub open spec fn strings_view(v: Vec<String>) -> Seq<Seq<char>> {
    Seq::new(
        v@.len(),
        |i: int|
            if 0 <= i < v@.len() {
                v@[i]@
            } else {
                arbitrary()
            },
    )
}

impl View for Note {
    type V = NoteV;

    open spec fn view(&self) -> NoteV {
        match *self {
            Note::SeeDocs(topic, url) => NoteV::SeeDocs(topic@, url@),
            Note::SeeErrorDocs => NoteV::SeeErrorDocs,
            Note::Solution { title, code } => NoteV::Solution {
                title: title@,
                code: strings_view(code),
            },
        }
    }
}

impl Note {
    /// A suggested rewrite.
    pub fn solution(title: String, code: Vec<String>) -> (n: Note)
        ensures
            n@ == (NoteV::Solution { title: title@, code: strings_view(code) }),
    {
        Note::Solution { title, code }
    }
}

/// The views of a vector of labels.
pub open spec fn labels_view(v: Vec<Label>) -> Seq<LabelV> {
    Seq::new(
        v@.len(),
        |i: int|
            if 0 <= i < v@.len() {
                v@[i]@
            } else {
                arbitrary()
            },
    )
}

/// The views of a vector of notes.
pub open spec fn notes_view(v: Vec<Note>) -> Seq<NoteV> {
    Seq::new(
        v@.len(),
        |i: int|
            if 0 <= i < v@.len() {
                v@[i]@
            } else {
                arbitrary()
            },
    )
}

/// The documentation URL for a topic of the expression reference.
pub fn expression_docs_url(anchor: &str) -> (r: String)
    ensures
        r@ == "https://vrl.dev/expressions/"@ + anchor@,
{
    let mut url = String::from_str("https://vrl.dev/expressions/");
    url.append(anchor);
    url
}

/// A rendered diagnostic from a function's own compilation hook: a numeric
/// code, a headline message, and its labels and notes.
#[derive(Debug, PartialEq)]
pub struct Diagnostic {
    pub code: usize,
    pub message: String,
    pub labels: Vec<Label>,
    pub notes: Vec<Note>,
}

/// Mathematical model of a [`Diagnostic`].
#[verifier::ext_equal]
pub struct DiagnosticV {
    pub code: usize,
    pub message: Seq<char>,
    pub labels: Seq<LabelV>,
    pub notes: Seq<NoteV>,
}

impl View for Diagnostic {
    type V = DiagnosticV;

    open spec fn view(&self) -> DiagnosticV {
        DiagnosticV {
            code: self.code,
            message: self.message@,
            labels: labels_view(self.labels),
            notes: notes_view(self.notes),
        }
    }
}

} // verus!
verus! {

/// `", "`-joined rendering of the first `n` strings.
pub open spec fn strings_join(ss: Seq<Seq<char>>, n: int) -> Seq<char>
    decreases n,
{
    if n <= 0 || n > ss.len() {
        Seq::empty()
    } else if n == 1 {
        ss[0]
    } else {
        strings_join(ss, n - 1) + ", "@ + ss[n - 1]
    }
}

/// `", "`-joined rendering of the first `n` strings, each in double quotes.
pub open spec fn quoted_join(ss: Seq<Seq<char>>, n: int) -> Seq<char>
    decreases n,
{
    if n <= 0 || n > ss.len() {
        Seq::empty()
    } else if n == 1 {
        "\""@ + ss[0] + "\""@
    } else {
        quoted_join(ss, n - 1) + ", "@ + "\""@ + ss[n - 1] + "\""@
    }
}

/// Appends the `", "`-joined strings to `out`.
pub fn push_strings_join(out: &mut String, ss: &Vec<String>)
    ensures
        final(out)@ == old(out)@ + strings_join(strings_view(*ss), strings_view(*ss).len() as int),
{
    let ghost sv = strings_view(*ss);
    let mut i: usize = 0;
    while i < ss.len()
        invariant
            i <= ss@.len(),
            sv == strings_view(*ss),
            sv.len() == ss@.len(),
            out@ == old(out)@ + strings_join(sv, i as int),
        decreases ss@.len() - i,
    {
        if i > 0 {
            out.append(", ");
        }
        out.append(ss[i].as_str());
        proof {
            assert(sv[i as int] == ss@[i as int]@);
            assert(out@ =~= old(out)@ + strings_join(sv, i + 1));
        }
        i += 1;
    }
}

/// Appends the `", "`-joined, double-quoted strings to `out`.
pub fn push_quoted_join(out: &mut String, ss: &Vec<String>)
    ensures
        final(out)@ == old(out)@ + quoted_join(strings_view(*ss), strings_view(*ss).len() as int),
{
    let ghost sv = strings_view(*ss);
    let mut i: usize = 0;
    while i < ss.len()
        invariant
            i <= ss@.len(),
            sv == strings_view(*ss),
            sv.len() == ss@.len(),
            out@ == old(out)@ + quoted_join(sv, i as int),
        decreases ss@.len() - i,
    {
        if i > 0 {
            out.append(", ");
        }
        out.append("\"");
        out.append(ss[i].as_str());
        out.append("\"");
        proof {
            assert(sv[i as int] == ss@[i as int]@);
            assert(out@ =~= old(out)@ + quoted_join(sv, i + 1));
        }
        i += 1;
    }
}

} // verus!
