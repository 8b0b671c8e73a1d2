//! Command logic: semesters, completion candidates, ID resolution, homework selection.
use vstd::prelude::*;
use crate::deadline::{parse_i64, parse_i64_spec};
use crate::models::{short_id, short_id_spec, CourseFile, Homework, Notification};
use vstd::utf8::encode_utf8;
use crate::text::{
    chars_of, extend_chars, int_text, int_text_exec, lex_le, lex_le_exec, split_on,
    split_on_chars, starts_with, string_of,
};

verus! {

broadcast use vstd::string::group_string_axioms;

// ---------------------------------------------------------------------------
// Semesters
// ---------------------------------------------------------------------------

/// `str::parse::<i32>`.
pub open spec fn parse_i32_spec(s: Seq<char>) -> Option<i32> {
    match parse_i64_spec(s) {
        Some(v) => if i32::MIN <= v <= i32::MAX {
            Some(v as i32)
        } else {
            None
        },
        None => None,
    }
}

/// The three numbers of a semester ID `Y1-Y2-T`.
pub open spec fn semester_parts(s: Seq<char>) -> Option<(i32, i32, i32)> {
    let p = split_on(s, '-');
    if p.len() != 3 {
        None
    } else {
        match (parse_i32_spec(p[0]), parse_i32_spec(p[1]), parse_i32_spec(p[2])) {
            (Some(y1), Some(y2), Some(t)) => Some((y1, y2, t)),
            _ => None,
        }
    }
}

/// The previous semester: term `T-1` of the same year when `T > 1`, else term 2 of the
/// year before.
pub open spec fn prev_semester_spec(s: Seq<char>) -> Option<Seq<char>> {
    match semester_parts(s) {
        Some((y1, y2, t)) => Some(
            if t > 1 {
                int_text(y1 as int) + seq!['-'] + int_text(y2 as int) + seq!['-'] + int_text(
                    t - 1,
                )
            } else {
                int_text(y1 - 1) + seq!['-'] + int_text(y2 - 1) + seq!['-', '2']
            },
        ),
        None => None,
    }
}

/// Going back a year stays within `i32` (the subtraction would overflow otherwise).
pub open spec fn prev_semester_defined(s: Seq<char>) -> bool {
    match semester_parts(s) {
        Some((y1, y2, t)) => t > 1 || (y1 > i32::MIN && y2 > i32::MIN),
        None => true,
    }
}

fn parse_i32(s: &[char]) -> (r: Option<i32>)
    ensures
        r == parse_i32_spec(s@),
{
    match parse_i64(s) {
        Some(v) => if -2147483648 <= v && v <= 2147483647 {
            Some(v as i32)
        } else {
            None
        },
        None => None,
    }
}

fn semester_parts_exec(s: &str) -> (r: Option<(i32, i32, i32)>)
    ensures
        r == semester_parts(s@),
{
    let v = chars_of(s);
    let p = split_on_chars(&v, '-');
    if p.len() != 3 {
        return None;
    }
    let y1 = match parse_i32(&p[0]) {
        Some(x) => x,
        None => return None,
    };
    let y2 = match parse_i32(&p[1]) {
        Some(x) => x,
        None => return None,
    };
    let t = match parse_i32(&p[2]) {
        Some(x) => x,
        None => return None,
    };
    Some((y1, y2, t))
}

/// `prev_semester` where the year arithmetic stays within `i32`, else `None`.
pub fn prev_semester_checked(s: &str) -> (r: Option<Option<String>>)
    ensures
        r is None <==> !prev_semester_defined(s@),
        r matches Some(Some(p)) ==> prev_semester_spec(s@) == Some(p@),
        r matches Some(None) ==> prev_semester_spec(s@) is None,
{
    match semester_parts_exec(s) {
        Some((y1, y2, t)) => {
            if t > 1 || (y1 > i32::MIN && y2 > i32::MIN) {
                Some(prev_semester(s))
            } else {
                None
            }
        },
        None => Some(None),
    }
}

/// Returns the previous semester ID, used to backfill older homework course names.
pub fn prev_semester(s: &str) -> (r: Option<String>)
    requires
        prev_semester_defined(s@),
    ensures
        r matches Some(p) ==> prev_semester_spec(s@) == Some(p@),
        r is None ==> prev_semester_spec(s@) is None,
{
    let (y1, y2, t) = match semester_parts_exec(s) {
        Some(x) => x,
        None => return None,
    };
    let mut out: Vec<char>;
    if t > 1 {
        out = int_text_exec(y1 as i64);
        out.push('-');
        extend_chars(&mut out, &int_text_exec(y2 as i64));
        out.push('-');
        extend_chars(&mut out, &int_text_exec((t - 1) as i64));
        proof {
            assert(out@ =~= int_text(y1 as int) + seq!['-'] + int_text(y2 as int) + seq!['-']
                + int_text(t - 1));
        }
    } else {
        out = int_text_exec((y1 - 1) as i64);
        out.push('-');
        extend_chars(&mut out, &int_text_exec((y2 - 1) as i64));
        out.push('-');
        out.push('2');
        proof {
            assert(out@ =~= int_text(y1 - 1) + seq!['-'] + int_text(y2 - 1) + seq!['-', '2']);
        }
    }
    Some(string_of(&out))
}

} // verus!

verus! {

// ---------------------------------------------------------------------------
// Completion candidates
// ---------------------------------------------------------------------------

/// A shell completion candidate: a short ID and what it stands for.
#[derive(Debug, Clone)]
pub struct CompletionItem {
    pub value: String,
    pub description: String,
}

pub open spec fn item_view(i: CompletionItem) -> (Seq<char>, Seq<char>) {
    (i.value@, i.description@)
}

pub open spec fn items_view(s: Seq<CompletionItem>) -> Seq<(Seq<char>, Seq<char>)> {
    s.map_values(|i: CompletionItem| item_view(i))
}

pub open spec fn separator_text() -> Seq<char> {
    seq![' ', '|', ' ']
}

/// `course | title`.
pub open spec fn describe(course: Seq<char>, title: Seq<char>) -> Seq<char> {
    course + separator_text() + title
}

fn make_item(id: &String, course: &String, title: &String) -> (r: CompletionItem)
    ensures
        r.value@ == short_id_spec(id@),
        r.description@ == describe(course@, title@),
{
    let mut d = chars_of(course.as_str());
    extend_chars(&mut d, &vec![' ', '|', ' ']);
    extend_chars(&mut d, &chars_of(title.as_str()));
    CompletionItem { value: short_id(id.as_str()), description: string_of(&d) }
}

pub fn completion_items_for_homework(hws: &[Homework]) -> (r: Vec<CompletionItem>)
    ensures
        r@.len() == hws@.len(),
        forall|i: int|
            0 <= i < hws@.len() ==> (#[trigger] r@[i]).value@ == short_id_spec(
                hws@[i].student_homework_id@,
            ) && r@[i].description@ == describe(hws@[i].course_name@, hws@[i].title@),
{
    let mut r: Vec<CompletionItem> = Vec::new();
    let mut i: usize = 0;
    while i < hws.len()
        invariant
            i <= hws@.len(),
            r@.len() == i,
            forall|k: int|
                0 <= k < i ==> (#[trigger] r@[k]).value@ == short_id_spec(
                    hws@[k].student_homework_id@,
                ) && r@[k].description@ == describe(hws@[k].course_name@, hws@[k].title@),
        decreases hws.len() - i,
    {
        r.push(make_item(&hws[i].student_homework_id, &hws[i].course_name, &hws[i].title));
        i += 1;
    }
    r
}

pub fn completion_items_for_announcements(notes: &[Notification]) -> (r: Vec<CompletionItem>)
    ensures
        r@.len() == notes@.len(),
        forall|i: int|
            0 <= i < notes@.len() ==> (#[trigger] r@[i]).value@ == short_id_spec(notes@[i].id@)
                && r@[i].description@ == describe(notes@[i].course_name@, notes@[i].title@),
{
    let mut r: Vec<CompletionItem> = Vec::new();
    let mut i: usize = 0;
    while i < notes.len()
        invariant
            i <= notes@.len(),
            r@.len() == i,
            forall|k: int|
                0 <= k < i ==> (#[trigger] r@[k]).value@ == short_id_spec(notes@[k].id@)
                    && r@[k].description@ == describe(notes@[k].course_name@, notes@[k].title@),
        decreases notes.len() - i,
    {
        r.push(make_item(&notes[i].id, &notes[i].course_name, &notes[i].title));
        i += 1;
    }
    r
}

pub fn completion_items_for_files(files: &[CourseFile]) -> (r: Vec<CompletionItem>)
    ensures
        r@.len() == files@.len(),
        forall|i: int|
            0 <= i < files@.len() ==> (#[trigger] r@[i]).value@ == short_id_spec(files@[i].id@)
                && r@[i].description@ == describe(files@[i].course_name@, files@[i].title@),
{
    let mut r: Vec<CompletionItem> = Vec::new();
    let mut i: usize = 0;
    while i < files.len()
        invariant
            i <= files@.len(),
            r@.len() == i,
            forall|k: int|
                0 <= k < i ==> (#[trigger] r@[k]).value@ == short_id_spec(files@[k].id@)
                    && r@[k].description@ == describe(files@[k].course_name@, files@[k].title@),
        decreases files.len() - i,
    {
        r.push(make_item(&files[i].id, &files[i].course_name, &files[i].title));
        i += 1;
    }
    r
}

/// The items whose value starts with `prefix`, in their order.
pub open spec fn prefix_filter(s: Seq<(Seq<char>, Seq<char>)>, prefix: Seq<char>) -> Seq<
    (Seq<char>, Seq<char>),
>
    decreases s.len(),
{
    if s.len() == 0 {
        seq![]
    } else if starts_with(s.last().0, prefix) {
        prefix_filter(s.drop_last(), prefix).push(s.last())
    } else {
        prefix_filter(s.drop_last(), prefix)
    }
}

/// Inserts `x` into a list sorted by value, after every item whose value is not greater.
pub open spec fn insert_item(s: Seq<(Seq<char>, Seq<char>)>, x: (Seq<char>, Seq<char>)) -> Seq<
    (Seq<char>, Seq<char>),
>
    decreases s.len(),
{
    if s.len() == 0 || lex_le(s.last().0, x.0) {
        s.push(x)
    } else {
        insert_item(s.drop_last(), x).push(s.last())
    }
}

/// A stable sort by value: items with equal values keep their order.
pub open spec fn sort_items(s: Seq<(Seq<char>, Seq<char>)>) -> Seq<(Seq<char>, Seq<char>)>
    decreases s.len(),
{
    if s.len() == 0 {
        seq![]
    } else {
        insert_item(sort_items(s.drop_last()), s.last())
    }
}

proof fn lemma_insert_item_at(s: Seq<(Seq<char>, Seq<char>)>, x: (Seq<char>, Seq<char>), j: int)
    requires
        0 <= j <= s.len(),
        forall|k: int| j <= k < s.len() ==> !lex_le((#[trigger] s[k]).0, x.0),
        j == 0 || lex_le(s[j - 1].0, x.0),
    ensures
        insert_item(s, x) == s.insert(j, x),
    decreases s.len(),
{
    if j == s.len() {
        assert(s.insert(j, x) =~= s.push(x));
    } else {
        assert(!lex_le(s.last().0, x.0));
        let d = s.drop_last();
        assert forall|k: int| j <= k < d.len() implies !lex_le((#[trigger] d[k]).0, x.0) by {
            assert(d[k] == s[k]);
        }
        if j > 0 {
            assert(d[j - 1] == s[j - 1]);
        }
        lemma_insert_item_at(d, x, j);
        assert(d.insert(j, x).push(s.last()) =~= s.insert(j, x));
    }
}

pub open spec fn value_sorted(s: Seq<(Seq<char>, Seq<char>)>) -> bool {
    forall|i: int, j: int| 0 <= i < j < s.len() ==> lex_le(s[i].0, s[j].0)
}

proof fn lemma_insert_item_sorted(s: Seq<(Seq<char>, Seq<char>)>, x: (Seq<char>, Seq<char>))
    requires
        value_sorted(s),
    ensures
        value_sorted(insert_item(s, x)),
        insert_item(s, x).to_multiset() == s.to_multiset().insert(x),
    decreases s.len(),
{
    broadcast use vstd::multiset::group_multiset_axioms;
    broadcast use vstd::seq_lib::to_multiset_build;

    if s.len() == 0 || lex_le(s.last().0, x.0) {
        let r = s.push(x);
        assert forall|i: int, j: int| 0 <= i < j < r.len() implies lex_le(r[i].0, r[j].0) by {
            if j == s.len() && i < s.len() - 1 {
                assert(lex_le(s[i].0, s[s.len() - 1].0));
                crate::text::lemma_lex_trans(s[i].0, s[s.len() - 1].0, x.0);
            }
        }
    } else {
        let d = s.drop_last();
        let last = s.last();
        assert(value_sorted(d));
        lemma_insert_item_sorted(d, x);
        let t = insert_item(d, x);
        let r = t.push(last);
        assert(s == d.push(last));
        crate::text::lemma_lex_total(last.0, x.0);
        assert forall|k: int| 0 <= k < t.len() implies lex_le((#[trigger] t[k]).0, last.0) by {
            vstd::seq_lib::to_multiset_contains(t, t[k]);
            assert(t.contains(t[k]));
            if t[k] != x {
                vstd::seq_lib::to_multiset_contains(d, t[k]);
                let m = choose|m: int| 0 <= m < d.len() && d[m] == t[k];
                assert(lex_le(s[m].0, s[s.len() - 1].0));
            }
        }
        assert forall|i: int, j: int| 0 <= i < j < r.len() implies lex_le(r[i].0, r[j].0) by {
            if j == t.len() {
                assert(r[i] == t[i]);
            } else {
                assert(r[i] == t[i] && r[j] == t[j]);
            }
        }
        assert(r.to_multiset() =~= s.to_multiset().insert(x));
    }
}

proof fn lemma_sort_items(s: Seq<(Seq<char>, Seq<char>)>)
    ensures
        value_sorted(sort_items(s)),
        sort_items(s).to_multiset() == s.to_multiset(),
    decreases s.len(),
{
    broadcast use vstd::seq_lib::to_multiset_build;

    if s.len() == 0 {
        assert(sort_items(s) =~= s);
    } else {
        lemma_sort_items(s.drop_last());
        lemma_insert_item_sorted(sort_items(s.drop_last()), s.last());
        assert(s == s.drop_last().push(s.last()));
    }
}

proof fn lemma_prefix_filter(s: Seq<(Seq<char>, Seq<char>)>, prefix: Seq<char>)
    ensures
        forall|x: (Seq<char>, Seq<char>)|
            #[trigger] prefix_filter(s, prefix).contains(x) <==> (s.contains(x) && starts_with(
                x.0,
                prefix,
            )),
    decreases s.len(),
{
    if s.len() > 0 {
        let d = s.drop_last();
        lemma_prefix_filter(d, prefix);
        let f = prefix_filter(d, prefix);
        let r = prefix_filter(s, prefix);
        let last = s.last();
        assert(s == d.push(last));
        assert forall|x: (Seq<char>, Seq<char>)|
            r.contains(x) <==> (s.contains(x) && starts_with(x.0, prefix)) by {
            assert(f.contains(x) <==> (d.contains(x) && starts_with(x.0, prefix)));
            if starts_with(last.0, prefix) {
                assert(r == f.push(last));
                vstd::seq_lib::lemma_seq_contains_after_push(f, last, x);
            } else {
                assert(r == f);
            }
            vstd::seq_lib::lemma_seq_contains_after_push(d, last, x);
        }
    }
}

/// Completion candidates come sorted by value; they are the items whose value starts
/// with the prefix, each as often as in the input.
pub proof fn law_completion_candidates_sorted(items: Seq<(Seq<char>, Seq<char>)>, prefix: Seq<char>)
    ensures
        value_sorted(sort_items(prefix_filter(items, prefix))),
        sort_items(prefix_filter(items, prefix)).to_multiset() == prefix_filter(
            items,
            prefix,
        ).to_multiset(),
        forall|x: (Seq<char>, Seq<char>)|
            sort_items(prefix_filter(items, prefix)).contains(x) <==> (items.contains(x)
                && starts_with(x.0, prefix)),
{
    broadcast use vstd::seq_lib::to_multiset_contains;

    let f = prefix_filter(items, prefix);
    lemma_sort_items(f);
    lemma_prefix_filter(items, prefix);
    assert forall|x: (Seq<char>, Seq<char>)|
        sort_items(f).contains(x) <==> (items.contains(x) && starts_with(x.0, prefix)) by {
        assert(sort_items(f).to_multiset().count(x) == f.to_multiset().count(x));
    }
}

fn copy_item(i: &CompletionItem) -> (r: CompletionItem)
    ensures
        item_view(r) == item_view(*i),
{
    CompletionItem { value: i.value.clone(), description: i.description.clone() }
}

/// Items whose value starts with `prefix`, sorted by value (stably).
pub fn filter_completion_items(items: &[CompletionItem], prefix: &str) -> (r: Vec<CompletionItem>)
    ensures
        items_view(r@) == sort_items(prefix_filter(items_view(items@), prefix@)),
{
    let p = chars_of(prefix);
    let mut out: Vec<CompletionItem> = Vec::new();
    let ghost iv = items_view(items@);
    let mut i: usize = 0;
    assert(iv.take(0) =~= seq![]);
    assert(items_view(out@) =~= seq![]);
    while i < items.len()
        invariant
            i <= items@.len(),
            p@ == prefix@,
            iv == items_view(items@),
            items_view(out@) == sort_items(prefix_filter(iv.take(i as int), prefix@)),
        decreases items.len() - i,
    {
        let ghost pre = iv.take(i as int);
        assert(iv.take(i + 1).drop_last() == pre);
        assert(iv.take(i + 1).last() == item_view(items@[i as int]));
        let v = chars_of(items[i].value.as_str());
        let is_match = p.len() <= v.len() && crate::text::matches_at(&v, &p, 0);
        assert(is_match == starts_with(v@, p@)) by {
            if p@.len() <= v@.len() {
                assert(v@.subrange(0, p@.len() as int) == v@.take(p@.len() as int));
            }
        }
        if is_match {
            let ghost before = items_view(out@);
            let x = copy_item(&items[i]);
            let mut j = out.len();
            while j > 0 && !lex_le_exec(&chars_of(out[j - 1].value.as_str()), &v)
                invariant
                    j <= out@.len(),
                    before == items_view(out@),
                    v@ == item_view(x).0,
                    forall|k: int| j <= k < out@.len() ==> !lex_le((#[trigger] before[k]).0, v@),
                decreases j,
            {
                assert(before[j - 1] == item_view(out@[j - 1]));
                j -= 1;
            }
            proof {
                if j > 0 {
                    assert(before[j - 1] == item_view(out@[j - 1]));
                }
                lemma_insert_item_at(before, item_view(x), j as int);
            }
            out.insert(j, x);
            assert(items_view(out@) =~= before.insert(j as int, item_view(x)));
            proof {
                let pf = prefix_filter(pre, prefix@);
                assert(prefix_filter(iv.take(i + 1), prefix@) == pf.push(item_view(x)));
                assert(pf.push(item_view(x)).drop_last() == pf);
                assert(sort_items(pf.push(item_view(x))) == insert_item(sort_items(pf), item_view(x)));
            }
        } else {
            assert(prefix_filter(iv.take(i + 1), prefix@) == prefix_filter(pre, prefix@));
        }
        i += 1;
    }
    assert(iv.take(items@.len() as int) == iv);
    out
}

pub open spec fn tab_to_space(c: char) -> char {
    if c == '\t' {
        ' '
    } else {
        c
    }
}

/// `value<TAB>description`, tabs inside the description turned into spaces.
pub open spec fn completion_line(i: (Seq<char>, Seq<char>)) -> Seq<char> {
    i.0 + seq!['\t'] + Seq::new(i.1.len(), |k: int| tab_to_space(i.1[k]))
}

pub fn format_completion_line(item: &CompletionItem) -> (r: String)
    ensures
        r@ == completion_line(item_view(*item)),
{
    let mut out = chars_of(item.value.as_str());
    let ghost head = out@;
    out.push('\t');
    let d = chars_of(item.description.as_str());
    let mut k: usize = 0;
    while k < d.len()
        invariant
            k <= d@.len(),
            out@ == head + seq!['\t'] + Seq::new(k as nat, |m: int| tab_to_space(d@[m])),
        decreases d.len() - k,
    {
        out.push(if d[k] == '\t' { ' ' } else { d[k] });
        k += 1;
        assert(out@ =~= head + seq!['\t'] + Seq::new(k as nat, |m: int| tab_to_space(d@[m])));
    }
    string_of(&out)
}

/// Which list the completion candidates come from.
#[derive(Debug, Clone, Copy, PartialEq, Eq, Structural)]
pub enum CompletionKind {
    Homework,
    Announcement,
    File,
}

pub open spec fn completion_cache_key_spec(kind: CompletionKind) -> Seq<char> {
    match kind {
        CompletionKind::Homework => seq!['c', 'o', 'm', 'p', 'l', 'e', 't', 'i', 'o', 'n', '_', 'h', 'o', 'm', 'e', 'w', 'o', 'r', 'k'],
        CompletionKind::Announcement => seq!['c', 'o', 'm', 'p', 'l', 'e', 't', 'i', 'o', 'n', '_', 'a', 'n', 'n', 'o', 'u', 'n', 'c', 'e', 'm', 'e', 'n', 't'],
        CompletionKind::File => seq!['c', 'o', 'm', 'p', 'l', 'e', 't', 'i', 'o', 'n', '_', 'f', 'i', 'l', 'e'],
    }
}

/// The cache key under which the candidates of one kind are kept.
pub fn completion_cache_key(kind: CompletionKind) -> (r: String)
    ensures
        r@ == completion_cache_key_spec(kind),
{
    let v = match kind {
        CompletionKind::Homework => vec!['c', 'o', 'm', 'p', 'l', 'e', 't', 'i', 'o', 'n', '_', 'h', 'o', 'm', 'e', 'w', 'o', 'r', 'k'],
        CompletionKind::Announcement => vec!['c', 'o', 'm', 'p', 'l', 'e', 't', 'i', 'o', 'n', '_', 'a', 'n', 'n', 'o', 'u', 'n', 'c', 'e', 'm', 'e', 'n', 't'],
        CompletionKind::File => vec!['c', 'o', 'm', 'p', 'l', 'e', 't', 'i', 'o', 'n', '_', 'f', 'i', 'l', 'e'],
    };
    string_of(&v)
}


// ---------------------------------------------------------------------------
// Shell completion script
// ---------------------------------------------------------------------------

/// The zsh completion script: subcommands, and IDs completed from the cached candidates
/// through the hidden `__complete` command.
pub const ZSH_COMPLETION_SCRIPT: &'static str = r#"#compdef thu-learn

_thu_learn_cached_ids() {
  local kind="$1"
  local -a lines
  lines=("${(@f)$("${words[1]}" __complete "$kind" "$PREFIX" 2>/dev/null)}")
  if (( ${#lines} )); then
    local -a candidates
    local line value desc
    for line in "${lines[@]}"; do
      value="${line%%$'\t'*}"
      desc="${line#*$'\t'}"
      candidates+=("${value}:${desc}")
    done
    _describe -t "thu-learn-${kind}-ids" "${kind} ids" candidates
  fi
}

_thu_learn() {
  local -a commands file_commands
  commands=(
    "login:log in through Chrome"
    "homework:list or show homework"
    "hw:list or show homework"
    "announcement:list or show announcements"
    "ann:list or show announcements"
    "file:list, show, or download course files"
    "f:list, show, or download course files"
    "submit:submit homework"
    "completion:print shell completion scripts"
  )
  file_commands=(
    "ls:list course files"
    "show:show file details"
    "get:download a course file"
  )

  case "$words[2]" in
    homework|hw)
      if (( CURRENT == 3 )); then
        _thu_learn_cached_ids homework
      else
        _arguments '*::arg:->args'
      fi
      ;;
    announcement|ann)
      if (( CURRENT == 3 )); then
        _thu_learn_cached_ids announcement
      else
        _arguments '*::arg:->args'
      fi
      ;;
    submit)
      if (( CURRENT == 3 )); then
        _thu_learn_cached_ids homework
      elif (( CURRENT == 4 )); then
        _files
      else
        _arguments '*::arg:->args'
      fi
      ;;
    file|f)
      if (( CURRENT == 3 )); then
        _describe -t thu-learn-file-commands 'file command' file_commands
      elif (( CURRENT == 4 )) && [[ "$words[3]" == (show|get) ]]; then
        _thu_learn_cached_ids file
      else
        _arguments '*::arg:->args'
      fi
      ;;
    completion)
      if (( CURRENT == 3 )); then
        _values 'shell' zsh
      fi
      ;;
    *)
      if (( CURRENT == 2 )); then
        _describe -t thu-learn-commands 'command' commands
      else
        _arguments '*::arg:->args'
      fi
      ;;
  esac
}

_thu_learn "$@"
"#;

/// The zsh completion script.
pub fn zsh_completion_script() -> (r: &'static str)
    ensures
        r@ == ZSH_COMPLETION_SCRIPT@,
{
    ZSH_COMPLETION_SCRIPT
}

// ---------------------------------------------------------------------------
// Command line
// ---------------------------------------------------------------------------

/// The parsed command line.
pub struct Cli {
    /// Print JSON output for supported commands.
    pub json: bool,
    pub command: Commands,
}

/// The subcommands.
pub enum Commands {
    /// Log in through Chrome and save the session locally.
    Login,
    /// List homework, or show one homework item when an ID is given.
    Homework { id: Option<String>, all: bool, overdue: bool, download: Option<String> },
    /// List course announcements, or show one when an ID is given.
    Announcement { id: Option<String> },
    /// List, show, or download course files.
    File { command: FileCommands },
    /// Print raw JSON from selected Learn endpoints.
    Debug,
    /// Print shell completion scripts.
    Completion { shell: CompletionShell },
    /// Print cached completion candidates.
    Complete { kind: CompletionKind, prefix: Option<String> },
    /// Submit homework: its ID, the file to submit, and a comment.
    Submit { homework_id: String, file: String, comment: String },
}

/// The shells completion scripts are printed for.
#[derive(Debug, Clone, Copy, PartialEq, Eq, Structural)]
pub enum CompletionShell {
    Zsh,
}

/// The `file` subcommands.
pub enum FileCommands {
    /// List course files, optionally only of courses whose name contains a text.
    Ls { course: Option<String> },
    /// Show file details.
    Show { file_id: String },
    /// Download a course file, optionally to a given path.
    Get { file_id: String, out: Option<String> },
}
} // verus!

verus! {

// ---------------------------------------------------------------------------
// ID resolution
// ---------------------------------------------------------------------------

/// How a user-typed ID resolves against a list.
#[derive(Debug)]
pub enum IdResolution {
    /// The position of the item meant.
    Found(usize),
    NotFound,
    /// The short IDs of all items the prefix fits, in list order.
    Ambiguous(Vec<String>),
}

pub enum ResolutionView {
    Found(int),
    NotFound,
    Ambiguous(Seq<Seq<char>>),
}

pub open spec fn resolution_view(r: IdResolution) -> ResolutionView {
    match r {
        IdResolution::Found(i) => ResolutionView::Found(i as int),
        IdResolution::NotFound => ResolutionView::NotFound,
        IdResolution::Ambiguous(v) => ResolutionView::Ambiguous(v@.map_values(|s: String| s@)),
    }
}

/// A query names an item exactly by its full ID or by its short ID.
pub open spec fn names_exactly(id: Seq<char>, q: Seq<char>) -> bool {
    id == q || short_id_spec(id) == q
}

/// The first item, from position `i`, that the query names exactly.
pub open spec fn first_exact(ids: Seq<String>, q: Seq<char>, i: int) -> Option<int>
    decreases ids.len() - i,
{
    if i < 0 || i >= ids.len() {
        None
    } else if names_exactly(ids[i]@, q) {
        Some(i)
    } else {
        first_exact(ids, q, i + 1)
    }
}

/// Positions of the items whose short ID starts with the query, in order.
pub open spec fn prefix_hits(ids: Seq<String>, q: Seq<char>) -> Seq<int>
    decreases ids.len(),
{
    if ids.len() == 0 {
        seq![]
    } else if starts_with(short_id_spec(ids.last()@), q) {
        prefix_hits(ids.drop_last(), q).push(ids.len() - 1)
    } else {
        prefix_hits(ids.drop_last(), q)
    }
}

/// An exact match wins (the first one); otherwise a query shorter than seven bytes (its
/// UTF-8 length, as `str::len` gives it) is a short-ID prefix, which must fit exactly one
/// item.
pub open spec fn resolve_spec(ids: Seq<String>, q: Seq<char>) -> ResolutionView {
    match first_exact(ids, q, 0) {
        Some(i) => ResolutionView::Found(i),
        None => if (encode_utf8(q).len() as usize) < 7 {
            let h = prefix_hits(ids, q);
            if h.len() == 1 {
                ResolutionView::Found(h[0])
            } else if h.len() == 0 {
                ResolutionView::NotFound
            } else {
                ResolutionView::Ambiguous(h.map_values(|k: int| short_id_spec(ids[k]@)))
            }
        } else {
            ResolutionView::NotFound
        },
    }
}

proof fn lemma_prefix_hits_bounds(ids: Seq<String>, q: Seq<char>)
    ensures
        forall|k: int|
            0 <= k < prefix_hits(ids, q).len() ==> 0 <= #[trigger] prefix_hits(ids, q)[k] < ids.len(),
    decreases ids.len(),
{
    if ids.len() > 0 {
        lemma_prefix_hits_bounds(ids.drop_last(), q);
        let h = prefix_hits(ids, q);
        let d = prefix_hits(ids.drop_last(), q);
        assert forall|k: int| 0 <= k < h.len() implies 0 <= #[trigger] h[k] < ids.len() by {
            if k < d.len() {
                assert(h[k] == d[k]);
            }
        }
    }
}

/// Resolves a full ID, a short ID, or a unique short-ID prefix to a position in `ids`.
pub fn resolve_item_prefix(ids: &[String], query: &str) -> (r: IdResolution)
    ensures
        resolution_view(r) == resolve_spec(ids@, query@),
        r matches IdResolution::Found(i) ==> i < ids@.len(),
{
    let q = chars_of(query);
    let mut shorts: Vec<Vec<char>> = Vec::new();
    let mut i: usize = 0;
    assert(first_exact(ids@, query@, 0) == first_exact(ids@, query@, 0));
    while i < ids.len()
        invariant
            i <= ids@.len(),
            q@ == query@,
            shorts@.len() == i,
            forall|k: int| 0 <= k < i ==> (#[trigger] shorts@[k])@ == short_id_spec(ids@[k]@),
            first_exact(ids@, query@, 0) == first_exact(ids@, query@, i as int),
        decreases ids.len() - i,
    {
        let full = chars_of(ids[i].as_str());
        let s = chars_of(short_id(ids[i].as_str()).as_str());
        if crate::text::seq_eq(&full, &q) || crate::text::seq_eq(&s, &q) {
            return IdResolution::Found(i);
        }
        shorts.push(s);
        i += 1;
    }
    if query.len() >= 7 {
        return IdResolution::NotFound;
    }
    let mut hits: Vec<usize> = Vec::new();
    let mut k: usize = 0;
    assert(ids@.take(0) =~= seq![]);
    while k < ids.len()
        invariant
            k <= ids@.len(),
            q@ == query@,
            first_exact(ids@, query@, 0) is None,
            (encode_utf8(query@).len() as usize) < 7,
            shorts@.len() == ids@.len(),
            forall|m: int| 0 <= m < ids@.len() ==> (#[trigger] shorts@[m])@ == short_id_spec(ids@[m]@),
            hits@.len() == prefix_hits(ids@.take(k as int), query@).len(),
            forall|m: int|
                0 <= m < hits@.len() ==> hits@[m] as int == #[trigger] prefix_hits(ids@.take(k as int), query@)[m],
        decreases ids.len() - k,
    {
        assert(ids@.take(k + 1).drop_last() == ids@.take(k as int));
        assert(ids@.take(k + 1).last() == ids@[k as int]);
        let is_hit = q.len() <= shorts[k].len() && crate::text::matches_at(&shorts[k], &q, 0);
        assert(is_hit == starts_with(shorts@[k as int]@, q@)) by {
            if q@.len() <= shorts@[k as int]@.len() {
                assert(shorts@[k as int]@.subrange(0, q@.len() as int) == shorts@[k as int]@.take(q@.len() as int));
            }
        }
        if is_hit {
            hits.push(k);
        }
        k += 1;
    }
    assert(ids@.take(ids@.len() as int) == ids@);
    proof {
        lemma_prefix_hits_bounds(ids@, query@);
    }
    if hits.len() == 1 {
        return IdResolution::Found(hits[0]);
    }
    if hits.len() == 0 {
        return IdResolution::NotFound;
    }
    let mut cands: Vec<String> = Vec::new();
    let mut m: usize = 0;
    while m < hits.len()
        invariant
            m <= hits@.len(),
            shorts@.len() == ids@.len(),
            forall|n: int| 0 <= n < ids@.len() ==> (#[trigger] shorts@[n])@ == short_id_spec(ids@[n]@),
            hits@.len() == prefix_hits(ids@, query@).len(),
            forall|n: int|
                0 <= n < hits@.len() ==> hits@[n] as int == #[trigger] prefix_hits(ids@, query@)[n],
            forall|n: int|
                0 <= n < prefix_hits(ids@, query@).len() ==> 0 <= #[trigger] prefix_hits(ids@, query@)[n] < ids@.len(),
            cands@.len() == m,
            forall|n: int|
                0 <= n < m ==> (#[trigger] cands@[n])@ == short_id_spec(ids@[hits@[n] as int]@),
        decreases hits.len() - m,
    {
        let idx = hits[m];
        assert(prefix_hits(ids@, query@)[m as int] == idx);
        cands.push(string_of(&shorts[idx]));
        m += 1;
    }
    let r = IdResolution::Ambiguous(cands);
    assert(cands@.map_values(|s: String| s@) =~= prefix_hits(ids@, query@).map_values(
        |k: int| short_id_spec(ids@[k]@),
    ));
    r
}

pub open spec fn not_found_message(name: Seq<char>, q: Seq<char>, hint: Seq<char>) -> Seq<char> {
    name + seq![' ', 'I', 'D', ' ', 'n', 'o', 't', ' ', 'f', 'o', 'u', 'n', 'd', ':', ' '] + q
        + seq![' ', '('] + hint + seq![')']
}

proof fn lemma_first_exact(ids: Seq<String>, q: Seq<char>, i: int)
    ensures
        first_exact(ids, q, i) matches Some(k) ==> i <= k < ids.len() && names_exactly(ids[k]@, q),
    decreases ids.len() - i,
{
    if 0 <= i < ids.len() && !names_exactly(ids[i]@, q) {
        lemma_first_exact(ids, q, i + 1);
    }
}

proof fn lemma_prefix_hits(ids: Seq<String>, q: Seq<char>)
    ensures
        forall|k: int|
            0 <= k < prefix_hits(ids, q).len() ==> 0 <= #[trigger] prefix_hits(ids, q)[k] < ids.len()
                && starts_with(short_id_spec(ids[prefix_hits(ids, q)[k]]@), q),
    decreases ids.len(),
{
    if ids.len() > 0 {
        let d = ids.drop_last();
        lemma_prefix_hits(d, q);
        let h = prefix_hits(d, q);
        assert forall|k: int| 0 <= k < prefix_hits(ids, q).len() implies 0
            <= #[trigger] prefix_hits(ids, q)[k] < ids.len() && starts_with(
            short_id_spec(ids[prefix_hits(ids, q)[k]]@),
            q,
        ) by {
            if k < h.len() {
                assert(prefix_hits(ids, q)[k] == h[k]);
                assert(d[h[k]] == ids[h[k]]);
            }
        }
    }
}

/// A typed ID resolves only to an item it names: one whose full or short ID it is, or
/// whose short ID it begins. An ambiguous prefix lists at least two candidates, each
/// beginning with it.
pub proof fn law_resolution_names_the_item(ids: Seq<String>, q: Seq<char>)
    ensures
        match resolve_spec(ids, q) {
            ResolutionView::Found(i) => 0 <= i < ids.len() && (names_exactly(ids[i]@, q)
                || starts_with(short_id_spec(ids[i]@), q)),
            ResolutionView::Ambiguous(c) => c.len() >= 2 && forall|k: int|
                0 <= k < c.len() ==> starts_with(#[trigger] c[k], q),
            ResolutionView::NotFound => true,
        },
{
    lemma_first_exact(ids, q, 0);
    lemma_prefix_hits(ids, q);
    let h = prefix_hits(ids, q);
    if first_exact(ids, q, 0) is None && (encode_utf8(q).len() as usize) < 7 && h.len() >= 2 {
        let c = h.map_values(|k: int| short_id_spec(ids[k]@));
        assert forall|k: int| 0 <= k < c.len() implies starts_with(#[trigger] c[k], q) by {
            assert(c[k] == short_id_spec(ids[h[k]]@));
        }
    }
}

proof fn lemma_first_exact_finds(ids: Seq<String>, q: Seq<char>, from: int, i: int)
    requires
        0 <= from <= i < ids.len(),
        names_exactly(ids[i]@, q),
    ensures
        first_exact(ids, q, from) is Some,
    decreases i - from,
{
    if !names_exactly(ids[from]@, q) {
        lemma_first_exact_finds(ids, q, from + 1, i);
    }
}

/// Every listed item can be named again: its full ID and its short ID both resolve, to
/// an item they name exactly.
pub proof fn law_listed_ids_resolve(ids: Seq<String>, i: int)
    requires
        0 <= i < ids.len(),
    ensures
        resolve_spec(ids, ids[i]@) matches ResolutionView::Found(j) && 0 <= j < ids.len()
            && names_exactly(ids[j]@, ids[i]@),
        resolve_spec(ids, short_id_spec(ids[i]@)) matches ResolutionView::Found(j) && 0 <= j
            < ids.len() && names_exactly(ids[j]@, short_id_spec(ids[i]@)),
{
    lemma_first_exact_finds(ids, ids[i]@, 0, i);
    lemma_first_exact(ids, ids[i]@, 0);
    lemma_first_exact_finds(ids, short_id_spec(ids[i]@), 0, i);
    lemma_first_exact(ids, short_id_spec(ids[i]@), 0);
}

proof fn lemma_prefix_hits_complete(ids: Seq<String>, q: Seq<char>, j: int)
    requires
        0 <= j < ids.len(),
        starts_with(short_id_spec(ids[j]@), q),
    ensures
        exists|m: int| 0 <= m < prefix_hits(ids, q).len() && prefix_hits(ids, q)[m] == j,
    decreases ids.len(),
{
    let d = ids.drop_last();
    let h = prefix_hits(d, q);
    if j == ids.len() - 1 {
        assert(prefix_hits(ids, q)[h.len() as int] == j);
    } else {
        assert(d[j] == ids[j]);
        lemma_prefix_hits_complete(d, q, j);
        let m = choose|m: int| 0 <= m < h.len() && h[m] == j;
        assert(prefix_hits(ids, q)[m] == j);
    }
}

proof fn lemma_prefix_hits_increasing(ids: Seq<String>, q: Seq<char>)
    ensures
        forall|a: int, b: int|
            0 <= a < b < prefix_hits(ids, q).len() ==> prefix_hits(ids, q)[a] < prefix_hits(
                ids,
                q,
            )[b],
    decreases ids.len(),
{
    if ids.len() > 0 {
        let d = ids.drop_last();
        lemma_prefix_hits_increasing(d, q);
        lemma_prefix_hits_bounds(d, q);
        let h = prefix_hits(d, q);
        let n = prefix_hits(ids, q);
        assert forall|a: int, b: int| 0 <= a < b < n.len() implies n[a] < n[b] by {
            assert(n[a] == h[a]);
            if b < h.len() {
                assert(n[b] == h[b]);
            } else {
                assert(n[b] == ids.len() - 1);
            }
        }
    }
}

/// How a query that names no item exactly is resolved: shorter than seven bytes, it
/// selects the one item whose short ID starts with it, finds nothing when no short ID
/// starts with it, and is ambiguous when several do; seven bytes or longer, it finds
/// nothing.
pub proof fn law_prefix_resolution(ids: Seq<String>, q: Seq<char>)
    requires
        forall|i: int| 0 <= i < ids.len() ==> !names_exactly(#[trigger] ids[i]@, q),
    ensures
        (encode_utf8(q).len() as usize) >= 7 ==> resolve_spec(ids, q) == ResolutionView::NotFound,
        (encode_utf8(q).len() as usize) < 7 ==> (resolve_spec(ids, q) == ResolutionView::NotFound
            <==> forall|j: int| 0 <= j < ids.len() ==> !starts_with(short_id_spec(#[trigger] ids[j]@), q)),
        forall|k: int|
            0 <= k < ids.len() && (encode_utf8(q).len() as usize) < 7 && starts_with(
                short_id_spec(#[trigger] ids[k]@),
                q,
            ) && (forall|j: int|
                0 <= j < ids.len() && j != k ==> !starts_with(short_id_spec(#[trigger] ids[j]@), q))
                ==> resolve_spec(ids, q) == ResolutionView::Found(k),
        forall|j1: int, j2: int|
            0 <= j1 < j2 < ids.len() && (encode_utf8(q).len() as usize) < 7 && starts_with(
                short_id_spec(#[trigger] ids[j1]@),
                q,
            ) && starts_with(short_id_spec(#[trigger] ids[j2]@), q) ==> resolve_spec(ids, q) is Ambiguous,
{
    lemma_first_exact(ids, q, 0);
    if let Some(i) = first_exact(ids, q, 0) {
        assert(names_exactly(ids[i]@, q));
    }
    lemma_prefix_hits(ids, q);
    lemma_prefix_hits_increasing(ids, q);
    let h = prefix_hits(ids, q);
    if (encode_utf8(q).len() as usize) < 7 {
        assert((resolve_spec(ids, q) == ResolutionView::NotFound) <==> h.len() == 0);
        if h.len() == 0 {
            assert forall|j: int| 0 <= j < ids.len() implies !starts_with(
                short_id_spec(#[trigger] ids[j]@),
                q,
            ) by {
                if starts_with(short_id_spec(ids[j]@), q) {
                    lemma_prefix_hits_complete(ids, q, j);
                }
            }
        } else {
            assert(starts_with(short_id_spec(ids[h[0]]@), q));
        }
        assert forall|k: int|
            0 <= k < ids.len() && starts_with(short_id_spec(#[trigger] ids[k]@), q) && (forall|j: int|
                0 <= j < ids.len() && j != k ==> !starts_with(short_id_spec(#[trigger] ids[j]@), q))
                implies resolve_spec(ids, q) == ResolutionView::Found(k) by {
            lemma_prefix_hits_complete(ids, q, k);
            assert forall|m: int| 0 <= m < h.len() implies h[m] == k by {
                assert(starts_with(short_id_spec(ids[h[m]]@), q));
            }
            if h.len() >= 2 {
                assert(h[0] < h[1]);
            }
            assert(h.len() == 1);
        }
        assert forall|j1: int, j2: int|
            0 <= j1 < j2 < ids.len() && starts_with(short_id_spec(#[trigger] ids[j1]@), q)
                && starts_with(short_id_spec(#[trigger] ids[j2]@), q) implies resolve_spec(
            ids,
            q,
        ) is Ambiguous by {
            lemma_prefix_hits_complete(ids, q, j1);
            lemma_prefix_hits_complete(ids, q, j2);
            let m1 = choose|m: int| 0 <= m < h.len() && h[m] == j1;
            let m2 = choose|m: int| 0 <= m < h.len() && h[m] == j2;
            assert(m1 != m2);
            assert(h.len() >= 2);
        }
    }
}

/// Texts joined with `, `.
pub open spec fn join_comma(s: Seq<Seq<char>>) -> Seq<char>
    decreases s.len(),
{
    if s.len() == 0 {
        seq![]
    } else if s.len() == 1 {
        s[0]
    } else {
        join_comma(s.drop_last()) + seq![',', ' '] + s.last()
    }
}

pub open spec fn ambiguous_message(name: Seq<char>, q: Seq<char>, cands: Seq<Seq<char>>) -> Seq<
    char,
> {
    name + seq![' ', 'I', 'D', ' ', 'p', 'r', 'e', 'f', 'i', 'x', ' ', 'i', 's', ' ', 'a', 'm', 'b', 'i', 'g', 'u', 'o', 'u', 's', ':', ' ']
        + q + seq![' ', '(', 'c', 'a', 'n', 'd', 'i', 'd', 'a', 't', 'e', 's', ':', ' ']
        + join_comma(cands) + seq![')']
}

fn join_comma_exec(v: &Vec<String>) -> (r: Vec<char>)
    ensures
        r@ == join_comma(v@.map_values(|s: String| s@)),
{
    let ghost sv = v@.map_values(|s: String| s@);
    let mut out: Vec<char> = Vec::new();
    let mut i: usize = 0;
    assert(sv.take(0) =~= seq![]);
    while i < v.len()
        invariant
            i <= v@.len(),
            sv == v@.map_values(|s: String| s@),
            out@ == join_comma(sv.take(i as int)),
        decreases v.len() - i,
    {
        assert(sv.take(i + 1).drop_last() == sv.take(i as int));
        assert(sv.take(i + 1).last() == v@[i as int]@);
        if i > 0 {
            out.push(',');
            out.push(' ');
        }
        extend_chars(&mut out, &chars_of(v[i].as_str()));
        if i == 0 {
            assert(out@ == join_comma(sv.take(1)));
        }
        i += 1;
    }
    assert(sv.take(v@.len() as int) == sv);
    out
}

/// Resolves an ID like `resolve_item_prefix`, or explains why it cannot.
pub fn resolve_item_by_id(ids: &[String], query: &str, name: &str, hint: &str) -> (r: Result<
    usize,
    String,
>)
    ensures
        r matches Ok(i) ==> resolve_spec(ids@, query@) == ResolutionView::Found(i as int)
            && i < ids@.len(),
        r matches Err(m) ==> (resolve_spec(ids@, query@) == ResolutionView::NotFound && m@
            == not_found_message(name@, query@, hint@)) || (exists|c: Seq<Seq<char>>|
            resolve_spec(ids@, query@) == ResolutionView::Ambiguous(c) && m@ == ambiguous_message(
                name@,
                query@,
                c,
            )),
        r is Ok <==> resolve_spec(ids@, query@) is Found,
{
    match resolve_item_prefix(ids, query) {
        IdResolution::Found(i) => Ok(i),
        IdResolution::NotFound => {
            let mut m = chars_of(name);
            extend_chars(&mut m, &vec![' ', 'I', 'D', ' ', 'n', 'o', 't', ' ', 'f', 'o', 'u', 'n', 'd', ':', ' ']);
            extend_chars(&mut m, &chars_of(query));
            extend_chars(&mut m, &vec![' ', '(']);
            extend_chars(&mut m, &chars_of(hint));
            m.push(')');
            Err(string_of(&m))
        },
        IdResolution::Ambiguous(c) => Err(ambiguous_text(name, query, &c)),
    }
}

fn ambiguous_text(name: &str, query: &str, c: &Vec<String>) -> (r: String)
    ensures
        r@ == ambiguous_message(name@, query@, c@.map_values(|s: String| s@)),
{
    let mut m = chars_of(name);
    extend_chars(&mut m, &vec![' ', 'I', 'D', ' ', 'p', 'r', 'e', 'f', 'i', 'x', ' ', 'i', 's', ' ', 'a', 'm', 'b', 'i', 'g', 'u', 'o', 'u', 's', ':', ' ']);
    extend_chars(&mut m, &chars_of(query));
    extend_chars(&mut m, &vec![' ', '(', 'c', 'a', 'n', 'd', 'i', 'd', 'a', 't', 'e', 's', ':', ' ']);
    extend_chars(&mut m, &join_comma_exec(c));
    m.push(')');
    string_of(&m)
}

pub open spec fn homework_word() -> Seq<char> {
    seq!['H', 'o', 'm', 'e', 'w', 'o', 'r', 'k']
}

/// The homework a submission goes to: the full ID of the one homework the typed ID
/// names; the typed ID itself when it names none (a full ID not in the list); an error
/// listing the candidates when a prefix fits several.
pub fn submit_target(ids: &[String], query: &str) -> (r: Result<String, String>)
    ensures
        match resolve_spec(ids@, query@) {
            ResolutionView::Found(i) => r matches Ok(t) && t@ == ids@[i]@,
            ResolutionView::NotFound => r matches Ok(t) && t@ == query@,
            ResolutionView::Ambiguous(c) => r matches Err(m) && m@ == ambiguous_message(
                homework_word(),
                query@,
                c,
            ),
        },
{
    match resolve_item_prefix(ids, query) {
        IdResolution::Found(i) => Ok(ids[i].clone()),
        IdResolution::NotFound => Ok(query.to_string()),
        IdResolution::Ambiguous(c) => {
            proof {
                reveal_strlit("Homework");
            }
            Err(ambiguous_text("Homework", query, &c))
        },
    }
}

} // verus!
