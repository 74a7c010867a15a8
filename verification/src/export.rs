//! Export: the data of one day, and the checks on the day and the file name
//! that an export is written under (a day `YYYY-MM-DD`, a relative file name
//! that cannot climb out of the export directory).

use vstd::prelude::*;

use crate::journal::JournalEntry;
use crate::segment::Segment;
use crate::text::concat;
use crate::time::is_digit;

verus! {

/// What an export of one day is made from.
pub struct ExportDayData {
    pub segments: Vec<Segment>,
    pub journal: Vec<JournalEntry>,
    pub todo_titles: Vec<(String, String)>,
}

/// A day written exactly `YYYY-MM-DD` with ASCII digits.
pub open spec fn is_day_text(s: Seq<char>) -> bool {
    &&& s.len() == 10
    &&& forall|i: int|
        0 <= i < 10 ==> if i == 4 || i == 7 {
            #[trigger] s[i] == '-'
        } else {
            is_digit(s[i])
        }
}

/// What a day that is not `YYYY-MM-DD` is answered.
pub open spec fn invalid_day_message(day: Seq<char>) -> Seq<char> {
    "invalid day: "@ + day
}

/// Accepts a day written exactly `YYYY-MM-DD`; anything else (which also
/// keeps a day from climbing directories in a file name) is refused.
pub fn assert_day(day: &str) -> (r: Result<(), String>)
    ensures
        r is Ok <==> is_day_text(day@),
        r matches Err(e) ==> e@ == invalid_day_message(day@),
{
    let t = crate::text::chars_of(day);
    let mut valid = t.len() == 10;
    if valid {
        let mut i: usize = 0;
        while i < 10
            invariant
                t@ == day@,
                t@.len() == 10,
                i <= 10,
                valid == forall|j: int|
                    0 <= j < i ==> if j == 4 || j == 7 {
                        #[trigger] t@[j] == '-'
                    } else {
                        is_digit(t@[j])
                    },
            decreases 10 - i,
        {
            let c = t[i];
            let ok = if i == 4 || i == 7 {
                c == '-'
            } else {
                '0' <= c && c <= '9'
            };
            valid = valid && ok;
            i = i + 1;
        }
    }
    if valid {
        Ok(())
    } else {
        Err(concat("invalid day: ", day))
    }
}

/// An ASCII letter.
pub open spec fn is_ascii_alpha(c: char) -> bool {
    ('a' <= c && c <= 'z') || ('A' <= c && c <= 'Z')
}

/// A name that starts with a drive letter and a colon (`C:foo`).
pub open spec fn drive_prefixed(s: Seq<char>) -> bool {
    s.len() >= 2 && is_ascii_alpha(s[0]) && s[1] == ':'
}

/// Whether `filename` starts with a drive letter and a colon.
pub fn has_drive_prefix(filename: &str) -> (r: bool)
    ensures
        r == drive_prefixed(filename@),
{
    let t = crate::text::chars_of(filename);
    t.len() >= 2 && (('a' <= t[0] && t[0] <= 'z') || ('A' <= t[0] && t[0] <= 'Z')) && t[1] == ':'
}

/// A path separator: `/` or `\`.
pub open spec fn is_separator(c: char) -> bool {
    c == '/' || c == '\\'
}

/// `s` has a `..` component: two dots between separators or the ends.
pub open spec fn has_parent_component(s: Seq<char>) -> bool {
    exists|i: int|
        0 <= i && i + 2 <= s.len() && #[trigger] s[i] == '.' && s[i + 1] == '.' && (i == 0
            || is_separator(s[i - 1])) && (i + 2 == s.len() || is_separator(s[i + 2]))
}

/// The reason an export file name is refused, if it is.
pub open spec fn filename_problem(f: Seq<char>) -> Option<Seq<char>> {
    if f.len() == 0 {
        Some("invalid filename: empty"@)
    } else if is_separator(f[0]) {
        Some("invalid filename: leading separator "@ + f)
    } else if drive_prefixed(f) {
        Some("invalid filename: drive prefix "@ + f)
    } else if has_parent_component(f) {
        Some("invalid filename: parent dir component "@ + f)
    } else {
        None
    }
}

fn parent_component(t: &Vec<char>) -> (r: bool)
    ensures
        r == has_parent_component(t@),
{
    let n = t.len();
    let mut i: usize = 0;
    while i < n && i + 1 < n
        invariant
            n == t@.len(),
            i <= n,
            forall|j: int|
                0 <= j < i && j + 2 <= n ==> !(#[trigger] t@[j] == '.' && t@[j + 1] == '.' && (j
                    == 0 || is_separator(t@[j - 1])) && (j + 2 == n || is_separator(t@[j + 2]))),
        decreases n - i,
    {
        if t[i] == '.' && t[i + 1] == '.' && (i == 0 || t[i - 1] == '/' || t[i - 1] == '\\') && (i
            + 2 == n || t[i + 2] == '/' || t[i + 2] == '\\') {
            return true;
        }
        i = i + 1;
    }
    false
}

/// Checks a file name for writing inside the export directory: not empty,
/// not starting with a separator or a drive, and with no `..` component
/// (separators `/` and `\`, as on Windows).  The answer names the problem.
pub fn check_export_filename(filename: &str) -> (r: Result<(), String>)
    ensures
        match filename_problem(filename@) {
            Some(msg) => r matches Err(e) && e@ == msg,
            None => r is Ok,
        },
{
    let t = crate::text::chars_of(filename);
    if t.len() == 0 {
        return Err("invalid filename: empty".to_owned());
    }
    if t[0] == '/' || t[0] == '\\' {
        return Err(concat("invalid filename: leading separator ", filename));
    }
    if has_drive_prefix(filename) {
        return Err(concat("invalid filename: drive prefix ", filename));
    }
    if parent_component(&t) {
        return Err(concat("invalid filename: parent dir component ", filename));
    }
    Ok(())
}


/// A day that `assert_day` accepts cannot climb directories: the export
/// file `time/<day>.md` made from it passes the file-name check.
pub proof fn lemma_valid_day_makes_safe_filename(day: Seq<char>)
    requires
        is_day_text(day),
    ensures
        filename_problem("time/"@ + day + ".md"@) is None,
{
    reveal_strlit("time/");
    reveal_strlit(".md");
    let f = "time/"@ + day + ".md"@;
    assert(f.len() == 18);
    assert(f[0] == 't');
    assert(f[1] == 'i');
    assert forall|i: int| 0 <= i && i + 2 <= f.len() implies !(#[trigger] f[i] == '.' && f[i + 1] == '.') by {
        if 5 <= i < 15 {
            assert(f[i] == day[i - 5]);
            if i + 1 < 15 {
                assert(f[i + 1] == day[i + 1 - 5]);
            }
        }
        if i == 4 {
            assert(f[i + 1] == day[0]);
        }
    }
}

} // verus!
