//! Data models for Tsinghua Learn, and the stable short IDs shown in listings.
use vstd::prelude::*;

verus! {

broadcast use vstd::string::group_string_axioms;

/// A course.
#[derive(Debug, Clone)]
pub struct Course {
    /// `wlkcid`: online course ID.
    pub id: String,
    /// Course name.
    pub name: String,
    /// Teacher name.
    pub teacher: String,
}

/// Homework submission status.
#[derive(Debug, Clone, Copy, PartialEq, Eq, Structural)]
pub enum HomeworkStatus {
    /// Not submitted yet.
    Pending,
    /// Submitted but not graded.
    Submitted,
    /// Graded.
    Graded,
}

pub open spec fn status_label(s: HomeworkStatus) -> Seq<char> {
    match s {
        HomeworkStatus::Pending => seq!['P', 'e', 'n', 'd', 'i', 'n', 'g'],
        HomeworkStatus::Submitted => seq!['S', 'u', 'b', 'm', 'i', 't', 't', 'e', 'd'],
        HomeworkStatus::Graded => seq!['G', 'r', 'a', 'd', 'e', 'd'],
    }
}

impl HomeworkStatus {
    /// The English name of the status.
    pub fn label(self) -> (r: &'static str)
        ensures
            r@ == status_label(self),
    {
        match self {
            HomeworkStatus::Pending => {
                proof {
                    reveal_strlit("Pending");
                }
                "Pending"
            },
            HomeworkStatus::Submitted => {
                proof {
                    reveal_strlit("Submitted");
                }
                "Submitted"
            },
            HomeworkStatus::Graded => {
                proof {
                    reveal_strlit("Graded");
                }
                "Graded"
            },
        }
    }
}

/// A homework item.
#[derive(Debug, Clone)]
pub struct Homework {
    /// `xszyid`: student homework ID.
    pub student_homework_id: String,
    /// `zyid`: homework base ID.
    pub base_id: String,
    /// `wlkcid`: online course ID.
    pub course_id: String,
    /// Course name, backfilled by course ID when the list response omits it.
    pub course_name: String,
    /// Homework title.
    pub title: String,
    /// Deadline as milliseconds since the Unix epoch, parsed from a millisecond timestamp
    /// or a formatted local date.
    pub deadline: Option<i64>,
    /// `jzsj`: deadline, kept as the raw server string.
    pub deadline_raw: String,
    /// `scsj`: submission time, present for submitted or graded items.
    pub submit_time: String,
    /// `cj` or `djzcj`: grade. `-100` means reviewed without a numeric grade.
    pub grade: Option<String>,
    /// `pynr`: grading comment.
    pub comment: String,
    /// `jsm`: grader name.
    pub grader: String,
    /// `pysj` or `pysjStr`: grading time.
    pub grade_time: String,
    pub status: HomeworkStatus,
}

/// A course announcement.
#[derive(Debug, Clone)]
pub struct Notification {
    /// `ggid`: announcement ID.
    pub id: String,
    /// `wlkcid`: online course ID.
    pub course_id: String,
    pub course_name: String,
    /// `bt` or `ggbt`: title.
    pub title: String,
    /// `fbsj` or `fbsjStr`: publish time.
    pub publish_time: String,
    /// `fbr` or `fbrxm`: publisher.
    pub publisher: String,
    /// `sfyd`: whether the announcement has been read.
    pub read: bool,
    /// `ggnr` or `ggnrStr`: announcement body.
    pub content: String,
}

/// A file attached to a homework page.
#[derive(Debug, Clone)]
pub struct HomeworkAttachment {
    /// Attachment section, from Learn's section labels.
    pub section: String,
    /// File name.
    pub filename: String,
    /// Download URL, completed with the Learn origin.
    pub download_path: String,
}

/// A course file.
#[derive(Debug, Clone)]
pub struct CourseFile {
    /// `wjid`: file ID used for downloads.
    pub id: String,
    /// `wlkcid`: online course ID.
    pub course_id: String,
    pub course_name: String,
    /// `bt` or `wjbt`: title.
    pub title: String,
    /// `wjdx` or `fileSize`: file size, already formatted by Learn.
    pub size: String,
    /// `wjlx`: file type or extension.
    pub file_type: String,
    /// `scsj`: upload time.
    pub upload_time: String,
    /// `ms`: description, often empty.
    pub description: String,
}

// ---------------------------------------------------------------------------
// Short IDs
// ---------------------------------------------------------------------------

/// What std's `DefaultHasher::new()` yields for a string (`str::hash`, then `finish`).
pub uninterp spec fn default_hash(s: Seq<char>) -> u64;

/// std's `DefaultHasher` with its fixed initial keys, fed the string. The result depends
/// on the string alone; the hash function itself is not written out here.
#[verifier::external_body]
fn hash_str(s: &str) -> (h: u64)
    ensures
        h == default_hash(s@),
{
    let mut hasher = std::collections::hash_map::DefaultHasher::new();
    std::hash::Hash::hash(s, &mut hasher);
    std::hash::Hasher::finish(&hasher)
}

pub open spec fn hex_digit(d: u64) -> char {
    if d < 10 {
        ((d + 0x30) as u8) as char
    } else {
        ((d - 10 + 0x61) as u8) as char
    }
}

/// Seven lower-case hex digits of `v`, most significant first (`format!("{:07x}", v)` for
/// `v < 16^7`).
pub open spec fn hex7(v: u64) -> Seq<char> {
    Seq::new(7, |i: int| hex_digit((v >> ((24 - 4 * i) as u64)) & 0xf))
}

/// The short ID of a server ID: the low 28 bits of its hash as seven hex digits.
pub open spec fn short_id_spec(full: Seq<char>) -> Seq<char> {
    hex7(default_hash(full) & 0xfff_ffff)
}

pub open spec fn is_lower_hex_char(c: char) -> bool {
    ('0' <= c && c <= '9') || ('a' <= c && c <= 'f')
}

fn hex_digit_exec(d: u64) -> (c: char)
    requires
        d < 16,
    ensures
        c == hex_digit(d),
        is_lower_hex_char(c),
{
    if d < 10 {
        ((d as u8) + 0x30) as char
    } else {
        ((d as u8) - 10 + 0x61) as char
    }
}

/// Generates a stable seven-character hex ID from a long server ID.
pub fn short_id(full: &str) -> (r: String)
    ensures
        r@ == short_id_spec(full@),
        r@.len() == 7,
        forall|i: int| 0 <= i < 7 ==> is_lower_hex_char(#[trigger] r@[i]),
{
    let v = hash_str(full) & 0xfff_ffff;
    let mut out = String::new();
    let mut i: u64 = 0;
    while i < 7
        invariant
            i <= 7,
            out@.len() == i,
            forall|k: int| 0 <= k < i ==> #[trigger] out@[k] == hex7(v)[k],
            forall|k: int| 0 <= k < i ==> is_lower_hex_char(#[trigger] out@[k]),
        decreases 7 - i,
    {
        let shift: u64 = 24 - 4 * i;
        let d = (v >> shift) & 0xf;
        assert(d < 16) by (bit_vector)
            requires
                d == (v >> shift) & 0xf,
        ;
        let c = hex_digit_exec(d);
        crate::text::push_char(&mut out, c);
        i += 1;
    }
    assert(out@ =~= hex7(v));
    out
}

} // verus!
