//! The monitor's report: how a written file is named, and what is said of
//! a custom slot whose files were read back.

use vstd::prelude::*;
use crate::governor::opt_str;
use crate::number::{decimal, push_decimal};
use crate::text::{chars_of, same_chars, string_of, trim, trim_spec};

verus! {

/// What `Path::file_name` gives for the path `p`.
pub uninterp spec fn path_file_name(p: Seq<char>) -> Option<Seq<char>>;

/// What `Path::parent` gives for the path `p`.
pub uninterp spec fn path_parent(p: Seq<char>) -> Option<Seq<char>>;

/// What `format!("{:?}", s)` gives for the text `s`: `s` quoted and escaped.
pub uninterp spec fn debug_text(s: Seq<char>) -> Seq<char>;

/// Calls `Path::file_name` on the path `path`. Claimed: the result is
/// `path_file_name(path@)`; nothing more is stated of it.
#[verifier::external_body]
fn file_name_of(path: &str) -> (r: Option<String>)
    ensures
        opt_str(r) == path_file_name(path@),
{
    match std::path::Path::new(path).file_name() {
        Some(name) => Some(name.to_string_lossy().into_owned()),
        None => None,
    }
}

/// Calls `Path::parent` on the path `path`. Claimed: the result is
/// `path_parent(path@)`; nothing more is stated of it.
#[verifier::external_body]
fn parent_of(path: &str) -> (r: Option<String>)
    ensures
        opt_str(r) == path_parent(path@),
{
    match std::path::Path::new(path).parent() {
        Some(parent) => Some(parent.to_string_lossy().into_owned()),
        None => None,
    }
}

/// Formats `s` with `{:?}`. Claimed: the result is `debug_text(s@)`.
#[verifier::external_body]
fn debug_of(s: &str) -> (r: String)
    ensures
        r@ == debug_text(s@),
{
    format!("{:?}", s)
}

/// Appends `t` to `s`.
fn push_text(s: &mut String, t: &str)
    ensures
        final(s)@ == old(s)@ + t@,
{
    s.append(t);
}

/// The text of an optional name, empty where there is none.
pub open spec fn name_or_empty(o: Option<Seq<char>>) -> Seq<char> {
    match o {
        Some(n) => n,
        None => Seq::empty(),
    }
}

/// `parent/file`, or `file` alone where the parent's name is empty.
pub open spec fn display_names(file: Option<Seq<char>>, parent: Option<Seq<char>>) -> Seq<char> {
    if name_or_empty(parent).len() == 0 {
        name_or_empty(file)
    } else {
        name_or_empty(parent) + "/"@ + name_or_empty(file)
    }
}

/// How the monitor names the file at `p`: its parent directory's name and its own.
pub open spec fn path_display(p: Seq<char>) -> Seq<char> {
    display_names(
        path_file_name(p),
        match path_parent(p) {
            Some(q) => path_file_name(q),
            None => None,
        },
    )
}

/// `parent/file`, or `file` alone where the parent name is empty (a missing
/// name counting as empty).
pub fn display_from_names(file: Option<String>, parent: Option<String>) -> (r: String)
    ensures
        r@ == display_names(opt_str(file), opt_str(parent)),
{
    let f = match file {
        Some(n) => n,
        None => String::new(),
    };
    let p = match parent {
        Some(n) => n,
        None => String::new(),
    };
    if p.as_str().is_empty() {
        f
    } else {
        let mut r = p;
        push_text(&mut r, "/");
        push_text(&mut r, f.as_str());
        r
    }
}

/// The last two components of `path`, as `parent/file`.
pub fn format_path_display(path: &str) -> (r: String)
    ensures
        r@ == path_display(path@),
{
    let file = file_name_of(path);
    let parent_name = match parent_of(path) {
        Some(q) => file_name_of(q.as_str()),
        None => None,
    };
    display_from_names(file, parent_name)
}

/// `n` written with at least two digits.
pub open spec fn two_digits(n: nat) -> Seq<char> {
    if n < 10 {
        "0"@ + decimal(n)
    } else {
        decimal(n)
    }
}

/// What the monitor says of a slot whose `total` files were found, `success`
/// of them holding the expected value.
pub open spec fn status_text(total: nat, success: nat) -> Seq<char> {
    if total == 0 {
        "(File Not Found)"@
    } else if success == total {
        "(Successful "@ + decimal(success) + "/"@ + decimal(total) + ")"@
    } else {
        "(Failed "@ + decimal((total - success) as nat) + "/"@ + decimal(total) + ")"@
    }
}

/// A slot is reported as not found exactly when none of its files was
/// found; with all found files holding the value it is `(Successful s/t)`,
/// and with some not holding it `(Failed f/t)`, `f` counting those that do not.
pub proof fn law_status_text_reports_counts(total: nat, success: nat)
    requires
        success <= total,
    ensures
        (status_text(total, success) == "(File Not Found)"@) <==> total == 0,
        0 < total && success == total ==> status_text(total, success) == "(Successful "@ + decimal(
            success,
        ) + "/"@ + decimal(total) + ")"@,
        success < total ==> status_text(total, success) == "(Failed "@ + decimal(
            (total - success) as nat,
        ) + "/"@ + decimal(total) + ")"@,
{
    reveal_strlit("(File Not Found)");
    reveal_strlit("(Successful ");
    reveal_strlit("(Failed ");
    if total > 0 {
        let t = status_text(total, success);
        if success == total {
            let a = "(Successful "@;
            assert(t == a + decimal(success) + "/"@ + decimal(total) + ")"@);
            assert(t[1] == a[1]);
            assert(t[1] != "(File Not Found)"@[1]);
        } else {
            let a = "(Failed "@;
            assert(t == a + decimal((total - success) as nat) + "/"@ + decimal(total) + ")"@);
            assert(t[2] == a[2]);
            assert(t[2] != "(File Not Found)"@[2]);
        }
    }
}

/// What the monitor says of a slot: `(File Not Found)`, `(Successful s/t)` or
/// `(Failed f/t)`.
pub fn slot_status_text(total: usize, success: usize) -> (r: String)
    requires
        success <= total,
    ensures
        r@ == status_text(total as nat, success as nat),
{
    if total == 0 {
        return string_of(&chars_of("(File Not Found)"));
    }
    let mut r = if success == total {
        string_of(&chars_of("(Successful "))
    } else {
        string_of(&chars_of("(Failed "))
    };
    let shown = if success == total { success } else { total - success };
    push_decimal(&mut r, shown as u64);
    push_text(&mut r, "/");
    push_decimal(&mut r, total as u64);
    push_text(&mut r, ")");
    r
}

/// The line the monitor prints for a custom slot.
pub open spec fn slot_line_text(slot_id: u8, file_name: Seq<char>, value: Seq<char>, status: Seq<char>) -> Seq<char> {
    "Slot "@ + two_digits(slot_id as nat) + ": ["@ + file_name + "] -> "@ + value + " "@ + status
}

/// `Slot NN: [file] -> value status`.
pub fn slot_line(slot_id: u8, file_name: &str, value: &str, status: &str) -> (r: String)
    ensures
        r@ == slot_line_text(slot_id, file_name@, value@, status@),
{
    let mut r = string_of(&chars_of("Slot "));
    if slot_id < 10 {
        push_text(&mut r, "0");
    }
    push_decimal(&mut r, slot_id as u64);
    push_text(&mut r, ": [");
    push_text(&mut r, file_name);
    push_text(&mut r, "] -> ");
    push_text(&mut r, value);
    push_text(&mut r, " ");
    push_text(&mut r, status);
    r
}

/// Why a file could not be read back.
#[derive(Debug)]
pub enum ReadFailure {
    /// The file may not be read without root rights.
    PermissionDenied,
    /// Another failure, with the error's own text.
    Other(String),
}

/// A file of a custom slot, read back: its path and its text, or why it could not be read.
#[derive(Debug)]
pub struct SlotReading {
    pub path: String,
    pub content: Result<String, ReadFailure>,
}

/// The report on a custom slot's files.
#[derive(Debug)]
pub struct SlotSummary {
    /// How many files hold the expected value.
    pub success_count: usize,
    /// One message for each file that does not, in order.
    pub errors: Vec<String>,
}

/// The message for a file that holds `content` where `expected` was written.
pub open spec fn mismatch_text(display: Seq<char>, content: Seq<char>, expected: Seq<char>) -> Seq<char> {
    "Mismatch in \""@ + display + "\": Found '"@ + trim_spec(content) + "' expected '"@
        + trim_spec(expected) + "'"@
}

/// The message for a file, named `quoted` (already quoted), that could not be read.
pub open spec fn read_error_text(quoted: Seq<char>, failure: ReadFailure) -> Seq<char> {
    match failure {
        ReadFailure::PermissionDenied => "ReadErr in "@ + quoted + ": Permission Denied. Please run with sudo."@,
        ReadFailure::Other(msg) => "ReadErr in "@ + quoted + ": "@ + msg@,
    }
}

/// What is said of one file read back: nothing where it holds the expected
/// value (both trimmed), else a message.
pub open spec fn reading_message(r: SlotReading, expected: Seq<char>) -> Option<Seq<char>> {
    match r.content {
        Ok(c) => if trim_spec(c@) == trim_spec(expected) {
            None
        } else {
            Some(mismatch_text(path_display(r.path@), c@, expected))
        },
        Err(f) => Some(read_error_text(debug_text(path_display(r.path@)), f)),
    }
}

/// The messages for the first `n` readings, in order.
pub open spec fn reading_messages(rs: Seq<SlotReading>, expected: Seq<char>, n: int) -> Seq<Seq<char>>
    decreases n,
{
    if n <= 0 || n > rs.len() {
        Seq::empty()
    } else {
        let rest = reading_messages(rs, expected, n - 1);
        match reading_message(rs[n - 1], expected) {
            Some(m) => rest.push(m),
            None => rest,
        }
    }
}

/// How many of the first `n` readings hold the expected value.
pub open spec fn reading_successes(rs: Seq<SlotReading>, expected: Seq<char>, n: int) -> nat
    decreases n,
{
    if n <= 0 || n > rs.len() {
        0
    } else {
        reading_successes(rs, expected, n - 1) + if reading_message(rs[n - 1], expected) is None {
            1nat
        } else {
            0nat
        }
    }
}

/// A file read back counts as holding the value exactly when it was read and
/// its text, trimmed, is the expected value, trimmed; every other file gets a
/// message, a read failure one that starts `ReadErr in `, a mismatch one that
/// starts `Mismatch in "`.
pub proof fn law_reading_holds_value_or_gets_message(r: SlotReading, expected: Seq<char>)
    ensures
        reading_message(r, expected) is None <==> (r.content matches Ok(c) && trim_spec(c@)
            == trim_spec(expected)),
        r.content is Err ==> (reading_message(r, expected) matches Some(m) && m.subrange(0, 11)
            == "ReadErr in "@),
        (r.content matches Ok(c) && trim_spec(c@) != trim_spec(expected)) ==> (reading_message(
            r,
            expected,
        ) matches Some(m) && m.subrange(0, 13) == "Mismatch in \""@),
{
    reveal_strlit("ReadErr in ");
    reveal_strlit("Mismatch in \"");
    match r.content {
        Ok(c) => {
            if trim_spec(c@) != trim_spec(expected) {
                let m = mismatch_text(path_display(r.path@), c@, expected);
                assert(m.subrange(0, 13) =~= "Mismatch in \""@);
            }
        },
        Err(f) => {
            let m = read_error_text(debug_text(path_display(r.path@)), f);
            assert(m.subrange(0, 11) =~= "ReadErr in "@);
        },
    }
}

/// The message for a file that holds `content` where `expected` was written.
pub fn mismatch_message(display: &str, content: &str, expected: &str) -> (r: String)
    ensures
        r@ == mismatch_text(display@, content@, expected@),
{
    let mut r = string_of(&chars_of("Mismatch in \""));
    push_text(&mut r, display);
    push_text(&mut r, "\": Found '");
    let c = trim(content);
    push_text(&mut r, c.as_str());
    push_text(&mut r, "' expected '");
    let e = trim(expected);
    push_text(&mut r, e.as_str());
    push_text(&mut r, "'");
    r
}

/// The message for a file, named `quoted` (already quoted), that could not be read.
pub fn read_error_message(quoted: &str, failure: &ReadFailure) -> (r: String)
    ensures
        r@ == read_error_text(quoted@, *failure),
{
    let mut r = string_of(&chars_of("ReadErr in "));
    push_text(&mut r, quoted);
    match failure {
        ReadFailure::PermissionDenied => {
            push_text(&mut r, ": Permission Denied. Please run with sudo.");
        },
        ReadFailure::Other(msg) => {
            push_text(&mut r, ": ");
            push_text(&mut r, msg.as_str());
        },
    }
    r
}

/// Counts the files that hold the expected value and words a message for
/// each that does not, in order.
pub fn summarize_slot(readings: &Vec<SlotReading>, expected: &str) -> (r: SlotSummary)
    ensures
        r.success_count == reading_successes(readings@, expected@, readings@.len() as int),
        r.errors@.map_values(|m: String| m@) == reading_messages(readings@, expected@, readings@.len() as int),
        r.success_count + r.errors@.len() == readings@.len(),
{
    let exp = trim(expected);
    let exp_chars = chars_of(exp.as_str());
    let n = readings.len();
    let mut success: usize = 0;
    let mut errors: Vec<String> = Vec::new();
    let mut i: usize = 0;
    while i < n
        invariant
            n == readings@.len(),
            i <= n,
            exp_chars@ == trim_spec(expected@),
            success == reading_successes(readings@, expected@, i as int),
            errors@.map_values(|m: String| m@) == reading_messages(readings@, expected@, i as int),
            success + errors@.len() == i,
        decreases n - i,
    {
        let reading = &readings[i];
        let ghost old_errors = errors@;
        match &reading.content {
            Ok(c) => {
                let t = trim(c.as_str());
                if same_chars(&chars_of(t.as_str()), &exp_chars) {
                    success = success + 1;
                } else {
                    let display = format_path_display(reading.path.as_str());
                    errors.push(mismatch_message(display.as_str(), c.as_str(), expected));
                }
            },
            Err(f) => {
                let display = format_path_display(reading.path.as_str());
                let quoted = debug_of(display.as_str());
                errors.push(read_error_message(quoted.as_str(), f));
            },
        }
        assert(errors@.map_values(|m: String| m@) =~= reading_messages(readings@, expected@, i + 1));
        i = i + 1;
    }
    SlotSummary { success_count: success, errors }
}

} // verus!
