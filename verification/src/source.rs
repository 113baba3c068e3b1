//! One module's source text, handed over as plain values by whatever did the
//! file I/O, and the checked conversion of that text into lines.

use vstd::prelude::*;
use crate::decimal::decimal_digits;
use crate::decimal::decimal_string;
use crate::diagnostic::Diagnostic;
use crate::diagnostic::DiagnosticResult;
use crate::diagnostic::DiagnosticView;
use crate::diagnostic::ErrorMessage;
use crate::diagnostic::MessageView;
use crate::diagnostic::Severity;
use crate::path::ModulePath;
use crate::path::seg_views;

verus! {

use vstd::string::StringExecFns;

/// One line of a source file as read from disk: its decoded text, or a marker
/// that the line could not be decoded as valid UTF-8.
pub enum SourceLine {
    Text(String),
    Invalid,
}

/// What opening and reading a module's file yielded: nothing at all, or the
/// file's lines in order.
pub enum FileContents {
    Unopenable,
    Lines(Vec<SourceLine>),
}

/// Holds when every line was decoded successfully.
pub open spec fn all_valid(lines: Seq<SourceLine>) -> bool {
    forall|i: int| 0 <= i < lines.len() ==> #[trigger] lines[i] is Text
}

/// The decoded text of each line.
pub open spec fn line_texts(lines: Seq<SourceLine>) -> Seq<Seq<char>> {
    lines.map_values(
        |l: SourceLine|
            match l {
                SourceLine::Text(s) => s@,
                SourceLine::Invalid => Seq::<char>::empty(),
            },
    )
}

/// The index of the first line that failed to decode.
pub open spec fn first_invalid(lines: Seq<SourceLine>) -> int
    decreases lines.len(),
{
    if lines.len() == 0 {
        0
    } else if !(lines[0] is Text) {
        0
    } else {
        1 + first_invalid(lines.drop_first())
    }
}

proof fn lemma_first_invalid(lines: Seq<SourceLine>, k: int)
    requires
        0 <= k < lines.len(),
        !(lines[k] is Text),
        forall|j: int| 0 <= j < k ==> #[trigger] lines[j] is Text,
    ensures
        first_invalid(lines) == k,
    decreases k,
{
    if k > 0 {
        let rest = lines.drop_first();
        assert(forall|j: int| 0 <= j < rest.len() ==> rest[j] == lines[j + 1]);
        lemma_first_invalid(rest, k - 1);
    }
}

/// The diagnostic reported when a module's file cannot be opened.
pub open spec fn cannot_open_message(path: Seq<Seq<char>>) -> MessageView {
    MessageView {
        text: "cannot open file"@,
        severity: Severity::Error,
        context: DiagnosticView::InFile { path },
    }
}

/// The diagnostic reported when the 1-indexed line `line_number` of a
/// module's file is not valid UTF-8.
pub open spec fn invalid_line_message(path: Seq<Seq<char>>, line_number: nat) -> MessageView {
    MessageView {
        text: "file contained invalid UTF-8 on line "@ + decimal_digits(line_number),
        severity: Severity::Error,
        context: DiagnosticView::InFile { path },
    }
}

/// Turns what the file I/O yielded into the lines of the module's source, or
/// into a single fatal diagnostic: an unopenable file, or the first line that
/// failed to decode, named by its 1-indexed number. Reading stops at the
/// first bad line.
pub fn read_lines(path: &ModulePath, contents: FileContents) -> (r: DiagnosticResult<
    Vec<String>,
>)
    ensures
        contents is Unopenable ==> !r.is_ok() && r.log() == seq![
            cannot_open_message(path@),
        ],
        contents matches FileContents::Lines(ls) ==> {
            &&& all_valid(ls@) ==> r.is_ok() && r.log() == Seq::<MessageView>::empty() && seg_views(
                r.value()@,
            ) == line_texts(ls@)
            &&& !all_valid(ls@) ==> !r.is_ok() && r.log() == seq![
                invalid_line_message(path@, (first_invalid(ls@) + 1) as nat),
            ]
        },
{
    match contents {
        FileContents::Unopenable => {
            let message = ErrorMessage::new(
                String::from_str("cannot open file"),
                Severity::Error,
                Diagnostic::in_file(path.clone()),
            );
            DiagnosticResult::fail(message)
        },
        FileContents::Lines(ls) => {
            let mut lines: Vec<String> = Vec::new();
            let n = ls.len();
            for i in 0..n
                invariant
                    contents == FileContents::Lines(ls),
                    n == ls.len(),
                    forall|j: int| 0 <= j < i ==> #[trigger] ls@[j] is Text,
                    lines.len() == i,
                    forall|j: int| 0 <= j < i ==> #[trigger] seg_views(lines@)[j] == line_texts(
                        ls@,
                    )[j],
            {
                match &ls[i] {
                    SourceLine::Text(s) => {
                        let ghost pre = lines@;
                        lines.push(s.clone());
                        proof {
                            assert(seg_views(lines@)[i as int] == line_texts(ls@)[i as int]);
                            assert(forall|j: int| 0 <= j < i ==> #[trigger] seg_views(lines@)[j]
                                == seg_views(pre)[j]);
                        }
                    },
                    SourceLine::Invalid => {
                        proof {
                            lemma_first_invalid(ls@, i as int);
                            assert(!all_valid(ls@));
                        }
                        let number = decimal_string(i + 1);
                        let mut text = String::from_str("file contained invalid UTF-8 on line ");
                        text.append(number.as_str());
                        let message = ErrorMessage::new(
                            text,
                            Severity::Error,
                            Diagnostic::in_file(path.clone()),
                        );
                        return DiagnosticResult::fail(message);
                    },
                }
            }
            proof {
                assert(seg_views(lines@) =~= line_texts(ls@));
            }
            DiagnosticResult::ok(lines)
        },
    }
}

} // verus!
