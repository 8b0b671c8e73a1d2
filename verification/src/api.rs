//! Reading Learn API responses: semesters, courses, homework, announcements, files,
//! homework details and submission replies, and the URLs and form fields the requests use.
use vstd::prelude::*;
use crate::html::{decode_chars, decode_spec, strip_html_chars, strip_html_spec};
use crate::json::{
    field, find_array_exec, find_array_spec, get_field, key_vecs, pick_chars, pick_spec,
    scalar_text, JsonValue,
};
use crate::models::{Course, CourseFile, Homework, HomeworkStatus, Notification};
use crate::deadline::{deadline_outcome, deadline_plan_spec, parse_deadline};
use crate::text::{
    chars_of, contains_seq, copy_range, eq_ignore_ascii_case_range, extend_chars, lower_seq,
    seq_eq, string_of,
};

verus! {

broadcast use vstd::string::group_string_axioms;

// ---------------------------------------------------------------------------
// Candidate keys (Learn's pinyin field abbreviations)
// ---------------------------------------------------------------------------

pub open spec fn keys_semester_result() -> Seq<Seq<char>> {
    seq![seq!['r', 'e', 's', 'u', 'l', 't']]
}

pub open spec fn keys_semester_id() -> Seq<Seq<char>> {
    seq![seq!['x', 'n', 'x', 'q'], seq!['i', 'd']]
}

fn keys_semester_id_exec() -> (r: Vec<Vec<char>>)
    ensures
        key_vecs(r@) == keys_semester_id(),
{
    let r = vec![vec!['x', 'n', 'x', 'q'], vec!['i', 'd']];
    assert(key_vecs(r@) =~= keys_semester_id());
    r
}

pub open spec fn keys_course_array() -> Seq<Seq<char>> {
    seq![seq!['r', 'e', 's', 'u', 'l', 't', 'L', 'i', 's', 't'], seq!['o', 'b', 'j', 'e', 'c', 't'], seq!['a', 'a', 'D', 'a', 't', 'a']]
}

fn keys_course_array_exec() -> (r: Vec<Vec<char>>)
    ensures
        key_vecs(r@) == keys_course_array(),
{
    let r = vec![vec!['r', 'e', 's', 'u', 'l', 't', 'L', 'i', 's', 't'], vec!['o', 'b', 'j', 'e', 'c', 't'], vec!['a', 'a', 'D', 'a', 't', 'a']];
    assert(key_vecs(r@) =~= keys_course_array());
    r
}

pub open spec fn keys_course_id() -> Seq<Seq<char>> {
    seq![seq!['w', 'l', 'k', 'c', 'i', 'd'], seq!['w', 'l', 'k', 'c', '_', 'i', 'd'], seq!['k', 'c', 'i', 'd']]
}

fn keys_course_id_exec() -> (r: Vec<Vec<char>>)
    ensures
        key_vecs(r@) == keys_course_id(),
{
    let r = vec![vec!['w', 'l', 'k', 'c', 'i', 'd'], vec!['w', 'l', 'k', 'c', '_', 'i', 'd'], vec!['k', 'c', 'i', 'd']];
    assert(key_vecs(r@) =~= keys_course_id());
    r
}

pub open spec fn keys_course_name() -> Seq<Seq<char>> {
    seq![seq!['k', 'c', 'm'], seq!['k', 'c', 'm', 'c'], seq!['z', 'w', 'k', 'c', 'm']]
}

fn keys_course_name_exec() -> (r: Vec<Vec<char>>)
    ensures
        key_vecs(r@) == keys_course_name(),
{
    let r = vec![vec!['k', 'c', 'm'], vec!['k', 'c', 'm', 'c'], vec!['z', 'w', 'k', 'c', 'm']];
    assert(key_vecs(r@) =~= keys_course_name());
    r
}

pub open spec fn keys_course_teacher() -> Seq<Seq<char>> {
    seq![seq!['j', 's', 'm'], seq!['j', 's'], seq!['j', 's', 'm', 'c'], seq!['s', 'k', 'j', 's']]
}

fn keys_course_teacher_exec() -> (r: Vec<Vec<char>>)
    ensures
        key_vecs(r@) == keys_course_teacher(),
{
    let r = vec![vec!['j', 's', 'm'], vec!['j', 's'], vec!['j', 's', 'm', 'c'], vec!['s', 'k', 'j', 's']];
    assert(key_vecs(r@) =~= keys_course_teacher());
    r
}

pub open spec fn keys_item_array() -> Seq<Seq<char>> {
    seq![seq!['a', 'a', 'D', 'a', 't', 'a'], seq!['o', 'b', 'j', 'e', 'c', 't'], seq!['r', 'e', 's', 'u', 'l', 't', 'L', 'i', 's', 't']]
}

fn keys_item_array_exec() -> (r: Vec<Vec<char>>)
    ensures
        key_vecs(r@) == keys_item_array(),
{
    let r = vec![vec!['a', 'a', 'D', 'a', 't', 'a'], vec!['o', 'b', 'j', 'e', 'c', 't'], vec!['r', 'e', 's', 'u', 'l', 't', 'L', 'i', 's', 't']];
    assert(key_vecs(r@) =~= keys_item_array());
    r
}

pub open spec fn keys_hw_course_name() -> Seq<Seq<char>> {
    seq![seq!['k', 'c', 'm'], seq!['w', 'l', 'k', 'c', 'm'], seq!['k', 'c', 'm', 'c']]
}

fn keys_hw_course_name_exec() -> (r: Vec<Vec<char>>)
    ensures
        key_vecs(r@) == keys_hw_course_name(),
{
    let r = vec![vec!['k', 'c', 'm'], vec!['w', 'l', 'k', 'c', 'm'], vec!['k', 'c', 'm', 'c']];
    assert(key_vecs(r@) =~= keys_hw_course_name());
    r
}

pub open spec fn keys_hw_deadline() -> Seq<Seq<char>> {
    seq![seq!['j', 'z', 's', 'j']]
}

fn keys_hw_deadline_exec() -> (r: Vec<Vec<char>>)
    ensures
        key_vecs(r@) == keys_hw_deadline(),
{
    let r = vec![vec!['j', 'z', 's', 'j']];
    assert(key_vecs(r@) =~= keys_hw_deadline());
    r
}

pub open spec fn keys_hw_student_id() -> Seq<Seq<char>> {
    seq![seq!['x', 's', 'z', 'y', 'i', 'd'], seq!['z', 'y', 'i', 'd']]
}

fn keys_hw_student_id_exec() -> (r: Vec<Vec<char>>)
    ensures
        key_vecs(r@) == keys_hw_student_id(),
{
    let r = vec![vec!['x', 's', 'z', 'y', 'i', 'd'], vec!['z', 'y', 'i', 'd']];
    assert(key_vecs(r@) =~= keys_hw_student_id());
    r
}

pub open spec fn keys_hw_base_id() -> Seq<Seq<char>> {
    seq![seq!['z', 'y', 'i', 'd']]
}

fn keys_hw_base_id_exec() -> (r: Vec<Vec<char>>)
    ensures
        key_vecs(r@) == keys_hw_base_id(),
{
    let r = vec![vec!['z', 'y', 'i', 'd']];
    assert(key_vecs(r@) =~= keys_hw_base_id());
    r
}

pub open spec fn keys_hw_title() -> Seq<Seq<char>> {
    seq![seq!['b', 't'], seq!['z', 'y', 'b', 't']]
}

fn keys_hw_title_exec() -> (r: Vec<Vec<char>>)
    ensures
        key_vecs(r@) == keys_hw_title(),
{
    let r = vec![vec!['b', 't'], vec!['z', 'y', 'b', 't']];
    assert(key_vecs(r@) =~= keys_hw_title());
    r
}

pub open spec fn keys_hw_submit_time() -> Seq<Seq<char>> {
    seq![seq!['s', 'c', 's', 'j']]
}

fn keys_hw_submit_time_exec() -> (r: Vec<Vec<char>>)
    ensures
        key_vecs(r@) == keys_hw_submit_time(),
{
    let r = vec![vec!['s', 'c', 's', 'j']];
    assert(key_vecs(r@) =~= keys_hw_submit_time());
    r
}

pub open spec fn keys_hw_comment() -> Seq<Seq<char>> {
    seq![seq!['p', 'y', 'n', 'r']]
}

fn keys_hw_comment_exec() -> (r: Vec<Vec<char>>)
    ensures
        key_vecs(r@) == keys_hw_comment(),
{
    let r = vec![vec!['p', 'y', 'n', 'r']];
    assert(key_vecs(r@) =~= keys_hw_comment());
    r
}

pub open spec fn keys_hw_grader() -> Seq<Seq<char>> {
    seq![seq!['j', 's', 'm']]
}

fn keys_hw_grader_exec() -> (r: Vec<Vec<char>>)
    ensures
        key_vecs(r@) == keys_hw_grader(),
{
    let r = vec![vec!['j', 's', 'm']];
    assert(key_vecs(r@) =~= keys_hw_grader());
    r
}

pub open spec fn keys_hw_grade_time() -> Seq<Seq<char>> {
    seq![seq!['p', 'y', 's', 'j', 'S', 't', 'r'], seq!['p', 'y', 's', 'j']]
}

fn keys_hw_grade_time_exec() -> (r: Vec<Vec<char>>)
    ensures
        key_vecs(r@) == keys_hw_grade_time(),
{
    let r = vec![vec!['p', 'y', 's', 'j', 'S', 't', 'r'], vec!['p', 'y', 's', 'j']];
    assert(key_vecs(r@) =~= keys_hw_grade_time());
    r
}

pub open spec fn keys_hw_level_grade() -> Seq<Seq<char>> {
    seq![seq!['d', 'j', 'z', 'c', 'j'], seq!['y', 'w', 'd', 'j', 'z', 'c', 'j']]
}

fn keys_hw_level_grade_exec() -> (r: Vec<Vec<char>>)
    ensures
        key_vecs(r@) == keys_hw_level_grade(),
{
    let r = vec![vec!['d', 'j', 'z', 'c', 'j'], vec!['y', 'w', 'd', 'j', 'z', 'c', 'j']];
    assert(key_vecs(r@) =~= keys_hw_level_grade());
    r
}

pub open spec fn keys_hw_grade() -> Seq<Seq<char>> {
    seq![seq!['c', 'j']]
}

fn keys_hw_grade_exec() -> (r: Vec<Vec<char>>)
    ensures
        key_vecs(r@) == keys_hw_grade(),
{
    let r = vec![vec!['c', 'j']];
    assert(key_vecs(r@) =~= keys_hw_grade());
    r
}

pub open spec fn keys_ann_id() -> Seq<Seq<char>> {
    seq![seq!['g', 'g', 'i', 'd'], seq!['i', 'd']]
}

fn keys_ann_id_exec() -> (r: Vec<Vec<char>>)
    ensures
        key_vecs(r@) == keys_ann_id(),
{
    let r = vec![vec!['g', 'g', 'i', 'd'], vec!['i', 'd']];
    assert(key_vecs(r@) =~= keys_ann_id());
    r
}

pub open spec fn keys_ann_title() -> Seq<Seq<char>> {
    seq![seq!['b', 't'], seq!['g', 'g', 'b', 't']]
}

fn keys_ann_title_exec() -> (r: Vec<Vec<char>>)
    ensures
        key_vecs(r@) == keys_ann_title(),
{
    let r = vec![vec!['b', 't'], vec!['g', 'g', 'b', 't']];
    assert(key_vecs(r@) =~= keys_ann_title());
    r
}

pub open spec fn keys_ann_time() -> Seq<Seq<char>> {
    seq![seq!['f', 'b', 's', 'j', 'S', 't', 'r'], seq!['f', 'b', 's', 'j']]
}

fn keys_ann_time_exec() -> (r: Vec<Vec<char>>)
    ensures
        key_vecs(r@) == keys_ann_time(),
{
    let r = vec![vec!['f', 'b', 's', 'j', 'S', 't', 'r'], vec!['f', 'b', 's', 'j']];
    assert(key_vecs(r@) =~= keys_ann_time());
    r
}

pub open spec fn keys_ann_publisher() -> Seq<Seq<char>> {
    seq![seq!['f', 'b', 'r', 'x', 'm'], seq!['f', 'b', 'r']]
}

fn keys_ann_publisher_exec() -> (r: Vec<Vec<char>>)
    ensures
        key_vecs(r@) == keys_ann_publisher(),
{
    let r = vec![vec!['f', 'b', 'r', 'x', 'm'], vec!['f', 'b', 'r']];
    assert(key_vecs(r@) =~= keys_ann_publisher());
    r
}

pub open spec fn keys_ann_read() -> Seq<Seq<char>> {
    seq![seq!['s', 'f', 'y', 'd']]
}

fn keys_ann_read_exec() -> (r: Vec<Vec<char>>)
    ensures
        key_vecs(r@) == keys_ann_read(),
{
    let r = vec![vec!['s', 'f', 'y', 'd']];
    assert(key_vecs(r@) =~= keys_ann_read());
    r
}

pub open spec fn keys_ann_content() -> Seq<Seq<char>> {
    seq![seq!['g', 'g', 'n', 'r', 'S', 't', 'r'], seq!['g', 'g', 'n', 'r']]
}

fn keys_ann_content_exec() -> (r: Vec<Vec<char>>)
    ensures
        key_vecs(r@) == keys_ann_content(),
{
    let r = vec![vec!['g', 'g', 'n', 'r', 'S', 't', 'r'], vec!['g', 'g', 'n', 'r']];
    assert(key_vecs(r@) =~= keys_ann_content());
    r
}

pub open spec fn keys_file_array() -> Seq<Seq<char>> {
    seq![seq!['o', 'b', 'j', 'e', 'c', 't'], seq!['r', 'e', 's', 'u', 'l', 't', 'L', 'i', 's', 't'], seq!['a', 'a', 'D', 'a', 't', 'a']]
}

fn keys_file_array_exec() -> (r: Vec<Vec<char>>)
    ensures
        key_vecs(r@) == keys_file_array(),
{
    let r = vec![vec!['o', 'b', 'j', 'e', 'c', 't'], vec!['r', 'e', 's', 'u', 'l', 't', 'L', 'i', 's', 't'], vec!['a', 'a', 'D', 'a', 't', 'a']];
    assert(key_vecs(r@) =~= keys_file_array());
    r
}

pub open spec fn keys_file_id() -> Seq<Seq<char>> {
    seq![seq!['w', 'j', 'i', 'd'], seq!['f', 'i', 'l', 'e', 'I', 'd']]
}

fn keys_file_id_exec() -> (r: Vec<Vec<char>>)
    ensures
        key_vecs(r@) == keys_file_id(),
{
    let r = vec![vec!['w', 'j', 'i', 'd'], vec!['f', 'i', 'l', 'e', 'I', 'd']];
    assert(key_vecs(r@) =~= keys_file_id());
    r
}

pub open spec fn keys_file_title() -> Seq<Seq<char>> {
    seq![seq!['b', 't'], seq!['w', 'j', 'b', 't'], seq!['t', 'i', 't', 'l', 'e']]
}

fn keys_file_title_exec() -> (r: Vec<Vec<char>>)
    ensures
        key_vecs(r@) == keys_file_title(),
{
    let r = vec![vec!['b', 't'], vec!['w', 'j', 'b', 't'], vec!['t', 'i', 't', 'l', 'e']];
    assert(key_vecs(r@) =~= keys_file_title());
    r
}

pub open spec fn keys_file_size() -> Seq<Seq<char>> {
    seq![seq!['f', 'i', 'l', 'e', 'S', 'i', 'z', 'e'], seq!['w', 'j', 'd', 'x', 'S', 't', 'r'], seq!['w', 'j', 'd', 'x']]
}

fn keys_file_size_exec() -> (r: Vec<Vec<char>>)
    ensures
        key_vecs(r@) == keys_file_size(),
{
    let r = vec![vec!['f', 'i', 'l', 'e', 'S', 'i', 'z', 'e'], vec!['w', 'j', 'd', 'x', 'S', 't', 'r'], vec!['w', 'j', 'd', 'x']];
    assert(key_vecs(r@) =~= keys_file_size());
    r
}

pub open spec fn keys_file_type() -> Seq<Seq<char>> {
    seq![seq!['w', 'j', 'l', 'x'], seq!['f', 'i', 'l', 'e', 'T', 'y', 'p', 'e']]
}

fn keys_file_type_exec() -> (r: Vec<Vec<char>>)
    ensures
        key_vecs(r@) == keys_file_type(),
{
    let r = vec![vec!['w', 'j', 'l', 'x'], vec!['f', 'i', 'l', 'e', 'T', 'y', 'p', 'e']];
    assert(key_vecs(r@) =~= keys_file_type());
    r
}

pub open spec fn keys_file_time() -> Seq<Seq<char>> {
    seq![seq!['s', 'c', 's', 'j'], seq!['u', 'p', 'l', 'o', 'a', 'd', 'T', 'i', 'm', 'e']]
}

fn keys_file_time_exec() -> (r: Vec<Vec<char>>)
    ensures
        key_vecs(r@) == keys_file_time(),
{
    let r = vec![vec!['s', 'c', 's', 'j'], vec!['u', 'p', 'l', 'o', 'a', 'd', 'T', 'i', 'm', 'e']];
    assert(key_vecs(r@) =~= keys_file_time());
    r
}

pub open spec fn keys_file_desc() -> Seq<Seq<char>> {
    seq![seq!['m', 's'], seq!['w', 'j', 'm', 's']]
}

fn keys_file_desc_exec() -> (r: Vec<Vec<char>>)
    ensures
        key_vecs(r@) == keys_file_desc(),
{
    let r = vec![vec!['m', 's'], vec!['w', 'j', 'm', 's']];
    assert(key_vecs(r@) =~= keys_file_desc());
    r
}

pub open spec fn keys_detail_msg() -> Seq<Seq<char>> {
    seq![seq!['m', 's', 'g']]
}

fn keys_detail_msg_exec() -> (r: Vec<Vec<char>>)
    ensures
        key_vecs(r@) == keys_detail_msg(),
{
    let r = vec![vec!['m', 's', 'g']];
    assert(key_vecs(r@) =~= keys_detail_msg());
    r
}

pub open spec fn keys_submit_result() -> Seq<Seq<char>> {
    seq![seq!['r', 'e', 's', 'u', 'l', 't']]
}

fn keys_submit_result_exec() -> (r: Vec<Vec<char>>)
    ensures
        key_vecs(r@) == keys_submit_result(),
{
    let r = vec![vec!['r', 'e', 's', 'u', 'l', 't']];
    assert(key_vecs(r@) =~= keys_submit_result());
    r
}

pub open spec fn keys_submit_msg() -> Seq<Seq<char>> {
    seq![seq!['m', 's', 'g'], seq!['m', 'e', 's', 's', 'a', 'g', 'e']]
}

fn keys_submit_msg_exec() -> (r: Vec<Vec<char>>)
    ensures
        key_vecs(r@) == keys_submit_msg(),
{
    let r = vec![vec!['m', 's', 'g'], vec!['m', 'e', 's', 's', 'a', 'g', 'e']];
    assert(key_vecs(r@) =~= keys_submit_msg());
    r
}


// ---------------------------------------------------------------------------
// Small helpers
// ---------------------------------------------------------------------------

pub proof fn lemma_pick_null(keys: Seq<Seq<char>>)
    ensures
        pick_spec(JsonValue::Null, keys) == Seq::<char>::empty(),
    decreases keys.len(),
{
    if keys.len() > 0 {
        lemma_pick_null(keys.drop_first());
    }
}

/// `pick(&v[k], keys)`.
fn pick_in(v: &JsonValue, k: &[char], keys: &[Vec<char>]) -> (r: String)
    ensures
        r@ == pick_spec(field(*v, k@), key_vecs(keys@)),
{
    match get_field(v, k) {
        Some(f) => pick_chars(f, keys),
        None => {
            proof {
                lemma_pick_null(key_vecs(keys@));
            }
            String::new()
        },
    }
}

fn pick_vec(v: &JsonValue, keys: &[Vec<char>]) -> (r: Vec<char>)
    ensures
        r@ == pick_spec(*v, key_vecs(keys@)),
{
    let s = pick_chars(v, keys);
    chars_of(s.as_str())
}

fn decoded_pick(v: &JsonValue, keys: &[Vec<char>]) -> (r: String)
    ensures
        r@ == decode_spec(pick_spec(*v, key_vecs(keys@))),
{
    let p = pick_vec(v, keys);
    let d = decode_chars(&p);
    string_of(&d)
}

fn stripped_pick(v: &JsonValue, keys: &[Vec<char>]) -> (r: String)
    ensures
        r@ == strip_html_spec(pick_spec(*v, key_vecs(keys@))),
{
    let p = pick_vec(v, keys);
    let d = strip_html_chars(&p);
    string_of(&d)
}

// ---------------------------------------------------------------------------
// Semester and courses
// ---------------------------------------------------------------------------

/// The current semester ID in a `getCurrentAndNextSemester` reply: `result.xnxq`, or
/// `result.id`; nothing when neither holds text.
pub open spec fn semester_spec(v: JsonValue) -> Option<Seq<char>> {
    let x = pick_spec(field(v, keys_semester_result()[0]), keys_semester_id());
    if x.len() == 0 {
        None
    } else {
        Some(x)
    }
}

pub fn semester_from_response(v: &JsonValue) -> (r: Option<String>)
    ensures
        r matches Some(s) ==> semester_spec(*v) == Some(s@),
        r is None ==> semester_spec(*v) is None,
{
    let result_key = vec!['r', 'e', 's', 'u', 'l', 't'];
    assert(result_key@ == keys_semester_result()[0]);
    let ids = keys_semester_id_exec();
    let x = pick_in(v, &result_key, &ids);
    if x.as_str().unicode_len() == 0 {
        None
    } else {
        Some(x)
    }
}

pub open spec fn course_view(c: Course) -> (Seq<char>, Seq<char>, Seq<char>) {
    (c.id@, c.name@, c.teacher@)
}

/// One course entry: its ID, decoded name and decoded teacher.
pub open spec fn course_from_json(j: JsonValue) -> (Seq<char>, Seq<char>, Seq<char>) {
    (
        pick_spec(j, keys_course_id()),
        decode_spec(pick_spec(j, keys_course_name())),
        decode_spec(pick_spec(j, keys_course_teacher())),
    )
}

/// The courses of a list, entries without an ID left out.
pub open spec fn courses_from(a: Seq<JsonValue>) -> Seq<(Seq<char>, Seq<char>, Seq<char>)>
    decreases a.len(),
{
    if a.len() == 0 {
        seq![]
    } else {
        let rest = courses_from(a.drop_last());
        let c = course_from_json(a.last());
        if c.0.len() == 0 {
            rest
        } else {
            rest.push(c)
        }
    }
}

/// The courses in a `loadCourseBySemesterId` reply; `None` when it holds no array.
pub fn parse_course_list(v: &JsonValue) -> (r: Option<Vec<Course>>)
    ensures
        r is None <==> find_array_spec(*v, keys_course_array()) is None,
        r matches Some(cs) ==> cs@.map_values(|c: Course| course_view(c)) == courses_from(
            find_array_spec(*v, keys_course_array())->0,
        ),
{
    let arr_keys = keys_course_array_exec();
    let arr = match find_array_exec(v, &arr_keys) {
        Some(a) => a,
        None => return None,
    };
    let id_keys = keys_course_id_exec();
    let name_keys = keys_course_name_exec();
    let teacher_keys = keys_course_teacher_exec();
    let mut out: Vec<Course> = Vec::new();
    let mut i: usize = 0;
    while i < arr.len()
        invariant
            i <= arr@.len(),
            key_vecs(id_keys@) == keys_course_id(),
            key_vecs(name_keys@) == keys_course_name(),
            key_vecs(teacher_keys@) == keys_course_teacher(),
            out@.map_values(|c: Course| course_view(c)) == courses_from(arr@.take(i as int)),
        decreases arr.len() - i,
    {
        let c = &arr[i];
        let id = pick_chars(c, &id_keys);
        let name = decoded_pick(c, &name_keys);
        let teacher = decoded_pick(c, &teacher_keys);
        proof {
            assert(arr@.take(i + 1).drop_last() == arr@.take(i as int));
            assert(arr@.take(i + 1).last() == arr@[i as int]);
        }
        if id.as_str().unicode_len() > 0 {
            let ghost before = out@;
            out.push(Course { id, name, teacher });
            assert(out@.map_values(|c: Course| course_view(c)) =~= before.map_values(
                |c: Course| course_view(c),
            ).push(course_from_json(arr@[i as int])));
        }
        i += 1;
    }
    assert(arr@.take(arr@.len() as int) == arr@);
    Some(out)
}

} // verus!

verus! {

// ---------------------------------------------------------------------------
// Grades and course names
// ---------------------------------------------------------------------------

pub open spec fn reviewed_text() -> Seq<char> {
    seq!['R', 'e', 'v', 'i', 'e', 'w', 'e', 'd']
}

/// A homework grade: the decoded level grade (`djzcj`) unless empty, `0` or `-100`; else
/// the numeric grade (`cj`), where `-100` means reviewed without a grade.
pub open spec fn grade_spec(h: JsonValue) -> Option<Seq<char>> {
    let dj = decode_spec(pick_spec(h, keys_hw_level_grade()));
    if dj.len() > 0 && dj != seq!['0'] && dj != seq!['-', '1', '0', '0'] {
        Some(dj)
    } else {
        let cj = pick_spec(h, keys_hw_grade());
        if cj.len() == 0 {
            None
        } else if cj == seq!['-', '1', '0', '0'] {
            Some(reviewed_text())
        } else {
            Some(cj)
        }
    }
}

pub open spec fn opt_text(o: Option<String>) -> Option<Seq<char>> {
    match o {
        Some(s) => Some(s@),
        None => None,
    }
}

/// Parses a homework grade.
pub fn parse_grade(h: &JsonValue) -> (r: Option<String>)
    ensures
        opt_text(r) == grade_spec(*h),
{
    let level_keys = keys_hw_level_grade_exec();
    let p = pick_vec(h, &level_keys);
    let dj = decode_chars(&p);
    let zero = vec!['0'];
    let minus100 = vec!['-', '1', '0', '0'];
    assert(zero@ == seq!['0']);
    assert(minus100@ == seq!['-', '1', '0', '0']);
    if dj.len() > 0 && !seq_eq(&dj, &zero) && !seq_eq(&dj, &minus100) {
        return Some(string_of(&dj));
    }
    let grade_keys = keys_hw_grade_exec();
    let cj = pick_vec(h, &grade_keys);
    if cj.len() == 0 {
        None
    } else if seq_eq(&cj, &minus100) {
        let t = vec!['R', 'e', 'v', 'i', 'e', 'w', 'e', 'd'];
        assert(t@ == reviewed_text());
        Some(string_of(&t))
    } else {
        Some(string_of(&cj))
    }
}

/// The name of the first course with the given ID; empty when none has it.
pub open spec fn course_name_spec(courses: Seq<Course>, id: Seq<char>) -> Seq<char>
    decreases courses.len(),
{
    if courses.len() == 0 {
        seq![]
    } else if courses[0].id@ == id {
        courses[0].name@
    } else {
        course_name_spec(courses.drop_first(), id)
    }
}

pub fn course_name_of(courses: &[Course], id: &str) -> (r: String)
    ensures
        r@ == course_name_spec(courses@, id@),
{
    let idv = chars_of(id);
    let mut i: usize = 0;
    assert(courses@.skip(0) == courses@);
    while i < courses.len()
        invariant
            i <= courses@.len(),
            idv@ == id@,
            course_name_spec(courses@, id@) == course_name_spec(courses@.skip(i as int), id@),
        decreases courses.len() - i,
    {
        assert(courses@.skip(i as int)[0] == courses@[i as int]);
        assert(courses@.skip(i as int).drop_first() == courses@.skip(i + 1));
        let cid = chars_of(courses[i].id.as_str());
        if seq_eq(&cid, &idv) {
            return courses[i].name.clone();
        }
        i += 1;
    }
    String::new()
}

// ---------------------------------------------------------------------------
// Announcements
// ---------------------------------------------------------------------------

pub open spec fn read_marker() -> Seq<char> {
    seq!['\u{662f}']
}

/// One announcement entry of `course`, as parsed.
pub open spec fn notification_matches(n: Notification, j: JsonValue, course: Course) -> bool {
    &&& n.id@ == pick_spec(j, keys_ann_id())
    &&& n.course_id@ == course.id@
    &&& n.course_name@ == course.name@
    &&& n.title@ == decode_spec(pick_spec(j, keys_ann_title()))
    &&& n.publish_time@ == pick_spec(j, keys_ann_time())
    &&& n.publisher@ == decode_spec(pick_spec(j, keys_ann_publisher()))
    &&& n.read == (pick_spec(j, keys_ann_read()) == read_marker())
    &&& n.content@ == strip_html_spec(pick_spec(j, keys_ann_content()))
}

/// The announcements of one course in a `pageListXsbyWgq` reply, one per entry of its
/// array; none when it holds no array.
pub fn parse_notifications(v: &JsonValue, course: &Course) -> (r: Vec<Notification>)
    ensures
        match find_array_spec(*v, keys_item_array()) {
            Some(a) => r@.len() == a.len() && forall|i: int|
                0 <= i < a.len() ==> notification_matches(#[trigger] r@[i], a[i], *course),
            None => r@.len() == 0,
        },
{
    let arr_keys = keys_item_array_exec();
    let arr = match find_array_exec(v, &arr_keys) {
        Some(a) => a,
        None => return Vec::new(),
    };
    let k_id = keys_ann_id_exec();
    let k_title = keys_ann_title_exec();
    let k_time = keys_ann_time_exec();
    let k_pub = keys_ann_publisher_exec();
    let k_read = keys_ann_read_exec();
    let k_content = keys_ann_content_exec();
    let marker = vec!['\u{662f}'];
    let mut out: Vec<Notification> = Vec::new();
    let mut i: usize = 0;
    while i < arr.len()
        invariant
            i <= arr@.len(),
            key_vecs(k_id@) == keys_ann_id(),
            key_vecs(k_title@) == keys_ann_title(),
            key_vecs(k_time@) == keys_ann_time(),
            key_vecs(k_pub@) == keys_ann_publisher(),
            key_vecs(k_read@) == keys_ann_read(),
            key_vecs(k_content@) == keys_ann_content(),
            marker@ == read_marker(),
            out@.len() == i,
            forall|m: int| 0 <= m < i ==> notification_matches(#[trigger] out@[m], arr@[m], *course),
        decreases arr.len() - i,
    {
        let n = &arr[i];
        let read_text = pick_vec(n, &k_read);
        let note = Notification {
            id: pick_chars(n, &k_id),
            course_id: course.id.clone(),
            course_name: course.name.clone(),
            title: decoded_pick(n, &k_title),
            publish_time: pick_chars(n, &k_time),
            publisher: decoded_pick(n, &k_pub),
            read: seq_eq(&read_text, &marker),
            content: stripped_pick(n, &k_content),
        };
        out.push(note);
        i += 1;
    }
    out
}

// ---------------------------------------------------------------------------
// Course files
// ---------------------------------------------------------------------------

/// A course file as its eight texts: ID, course ID, course name, title, size, type,
/// upload time, description.
pub open spec fn file_view(f: CourseFile) -> Seq<Seq<char>> {
    seq![f.id@, f.course_id@, f.course_name@, f.title@, f.size@, f.file_type@, f.upload_time@, f.description@]
}

pub open spec fn file_from_json(j: JsonValue, course: Course) -> Seq<Seq<char>> {
    seq![
        pick_spec(j, keys_file_id()),
        course.id@,
        course.name@,
        decode_spec(pick_spec(j, keys_file_title())),
        pick_spec(j, keys_file_size()),
        pick_spec(j, keys_file_type()),
        pick_spec(j, keys_file_time()),
        strip_html_spec(pick_spec(j, keys_file_desc())),
    ]
}

/// The files of a list, entries without an ID left out.
pub open spec fn files_from(a: Seq<JsonValue>, course: Course) -> Seq<Seq<Seq<char>>>
    decreases a.len(),
{
    if a.len() == 0 {
        seq![]
    } else {
        let rest = files_from(a.drop_last(), course);
        let f = file_from_json(a.last(), course);
        if f[0].len() == 0 {
            rest
        } else {
            rest.push(f)
        }
    }
}

/// The files of one course in a `kjxxbByWlkcidAndSizeForStudent` reply; none when it
/// holds no array.
pub fn parse_course_files(v: &JsonValue, course: &Course) -> (r: Vec<CourseFile>)
    ensures
        r@.map_values(|f: CourseFile| file_view(f)) == match find_array_spec(
            *v,
            keys_file_array(),
        ) {
            Some(a) => files_from(a, *course),
            None => seq![],
        },
{
    let arr_keys = keys_file_array_exec();
    let arr = match find_array_exec(v, &arr_keys) {
        Some(a) => a,
        None => {
            let out: Vec<CourseFile> = Vec::new();
            assert(out@.map_values(|f: CourseFile| file_view(f)) =~= seq![]);
            return out;
        },
    };
    let k_id = keys_file_id_exec();
    let k_title = keys_file_title_exec();
    let k_size = keys_file_size_exec();
    let k_type = keys_file_type_exec();
    let k_time = keys_file_time_exec();
    let k_desc = keys_file_desc_exec();
    let mut out: Vec<CourseFile> = Vec::new();
    let mut i: usize = 0;
    while i < arr.len()
        invariant
            i <= arr@.len(),
            key_vecs(k_id@) == keys_file_id(),
            key_vecs(k_title@) == keys_file_title(),
            key_vecs(k_size@) == keys_file_size(),
            key_vecs(k_type@) == keys_file_type(),
            key_vecs(k_time@) == keys_file_time(),
            key_vecs(k_desc@) == keys_file_desc(),
            out@.map_values(|f: CourseFile| file_view(f)) == files_from(arr@.take(i as int), *course),
        decreases arr.len() - i,
    {
        let f = &arr[i];
        let id = pick_chars(f, &k_id);
        proof {
            assert(arr@.take(i + 1).drop_last() == arr@.take(i as int));
            assert(arr@.take(i + 1).last() == arr@[i as int]);
        }
        if id.as_str().unicode_len() > 0 {
            let file = CourseFile {
                id,
                course_id: course.id.clone(),
                course_name: course.name.clone(),
                title: decoded_pick(f, &k_title),
                size: pick_chars(f, &k_size),
                file_type: pick_chars(f, &k_type),
                upload_time: pick_chars(f, &k_time),
                description: stripped_pick(f, &k_desc),
            };
            let ghost before = out@;
            assert(file_view(file) =~= file_from_json(arr@[i as int], *course));
            out.push(file);
            assert(out@.map_values(|f: CourseFile| file_view(f)) =~= before.map_values(
                |f: CourseFile| file_view(f),
            ).push(file_from_json(arr@[i as int], *course)));
        }
        i += 1;
    }
    assert(arr@.take(arr@.len() as int) == arr@);
    out
}

// ---------------------------------------------------------------------------
// Homework detail and submission replies
// ---------------------------------------------------------------------------

/// The homework description in a `detail` reply: its `msg`, rendered as text.
pub fn homework_detail_text(v: &JsonValue) -> (r: String)
    ensures
        r@ == strip_html_spec(pick_spec(*v, keys_detail_msg())),
{
    let k = keys_detail_msg_exec();
    stripped_pick(v, &k)
}

/// A block of the debugging dump: `=== label ===`, the pretty-printed reply cut after
/// 3500 characters (with a note when cut), and an empty line.
pub open spec fn dump_text_spec(label: Seq<char>, body: Seq<char>) -> Seq<char> {
    seq!['=', '=', '=', ' '] + label + seq![' ', '=', '=', '=', '\u{a}'] + (if body.len() > 3500 {
        body.take(3500) + seq!['\u{a}', '.', '.', '.', '(', 't', 'r', 'u', 'n', 'c', 'a', 't', 'e', 'd', ')']
    } else {
        body
    }) + seq!['\u{a}']
}

pub fn dump_text(label: &str, body: &str) -> (r: String)
    ensures
        r@ == dump_text_spec(label@, body@),
{
    let b = chars_of(body);
    let mut v = vec!['=', '=', '=', ' '];
    extend_chars(&mut v, &chars_of(label));
    extend_chars(&mut v, &vec![' ', '=', '=', '=', '\u{a}']);
    if b.len() > 3500 {
        extend_chars(&mut v, &copy_range(&b, 0, 3500));
        extend_chars(&mut v, &vec!['\u{a}', '.', '.', '.', '(', 't', 'r', 'u', 'n', 'c', 'a', 't', 'e', 'd', ')']);
    } else {
        extend_chars(&mut v, &b);
    }
    v.push('\u{a}');
    string_of(&v)
}

pub open spec fn success_text() -> Seq<char> {
    seq!['s', 'u', 'c', 'c', 'e', 's', 's']
}

pub open spec fn success_marker() -> Seq<char> {
    seq!['\u{6210}', '\u{529f}']
}

/// A submission succeeded when `result` is `success` (any ASCII case) or the message
/// holds Learn's success literal.
pub open spec fn submission_ok_spec(v: JsonValue) -> bool {
    lower_seq(pick_spec(v, keys_submit_result())) == lower_seq(success_text())
        || contains_seq(pick_spec(v, keys_submit_msg()), success_marker())
}

pub fn submission_succeeded(v: &JsonValue) -> (r: bool)
    ensures
        r == submission_ok_spec(*v),
{
    let k_result = keys_submit_result_exec();
    let k_msg = keys_submit_msg_exec();
    let result = pick_vec(v, &k_result);
    let msg = pick_vec(v, &k_msg);
    let success = vec!['s', 'u', 'c', 'c', 'e', 's', 's'];
    let marker = vec!['\u{6210}', '\u{529f}'];
    assert(result@.subrange(0, result@.len() as int) == result@);
    if eq_ignore_ascii_case_range(&result, 0, result.len(), &success) {
        return true;
    }
    match crate::text::find_chars(&msg, &marker) {
        Some(k) => {
            proof {
                crate::text::lemma_find_from(msg@, marker@, 0);
            }
            true
        },
        None => {
            proof {
                crate::text::lemma_find_from(msg@, marker@, 0);
            }
            false
        },
    }
}

} // verus!

verus! {

// ---------------------------------------------------------------------------
// Homework
// ---------------------------------------------------------------------------

/// One homework entry with the given status, as parsed; the course name comes from the
/// course list when the entry lacks one.
pub open spec fn homework_matches(
    h: Homework,
    j: JsonValue,
    courses: Seq<Course>,
    status: HomeworkStatus,
) -> bool {
    let n = decode_spec(pick_spec(j, keys_hw_course_name()));
    &&& h.student_homework_id@ == pick_spec(j, keys_hw_student_id())
    &&& h.base_id@ == pick_spec(j, keys_hw_base_id())
    &&& h.course_id@ == pick_spec(j, keys_course_id())
    &&& h.course_name@ == (if n.len() == 0 {
        course_name_spec(courses, h.course_id@)
    } else {
        n
    })
    &&& h.title@ == decode_spec(pick_spec(j, keys_hw_title()))
    &&& h.deadline_raw@ == pick_spec(j, keys_hw_deadline())
    &&& deadline_outcome(deadline_plan_spec(h.deadline_raw@), h.deadline)
    &&& h.submit_time@ == pick_spec(j, keys_hw_submit_time())
    &&& opt_text(h.grade) == grade_spec(j)
    &&& h.comment@ == strip_html_spec(pick_spec(j, keys_hw_comment()))
    &&& h.grader@ == decode_spec(pick_spec(j, keys_hw_grader()))
    &&& h.grade_time@ == pick_spec(j, keys_hw_grade_time())
    &&& h.status == status
}

/// The homework in one status list reply (`zyListWj`, `zyListYjwg` or `zyListYpg`), one
/// per entry of its array; none when it holds no array.
pub fn parse_homework_list(v: &JsonValue, courses: &[Course], status: HomeworkStatus) -> (r: Vec<
    Homework,
>)
    ensures
        match find_array_spec(*v, keys_item_array()) {
            Some(a) => r@.len() == a.len() && forall|i: int|
                0 <= i < a.len() ==> homework_matches(#[trigger] r@[i], a[i], courses@, status),
            None => r@.len() == 0,
        },
{
    let arr_keys = keys_item_array_exec();
    let arr = match find_array_exec(v, &arr_keys) {
        Some(a) => a,
        None => return Vec::new(),
    };
    let k_cid = keys_course_id_exec();
    let k_cname = keys_hw_course_name_exec();
    let k_deadline = keys_hw_deadline_exec();
    let k_sid = keys_hw_student_id_exec();
    let k_base = keys_hw_base_id_exec();
    let k_title = keys_hw_title_exec();
    let k_submit = keys_hw_submit_time_exec();
    let k_comment = keys_hw_comment_exec();
    let k_grader = keys_hw_grader_exec();
    let k_gtime = keys_hw_grade_time_exec();
    let mut out: Vec<Homework> = Vec::new();
    let mut i: usize = 0;
    while i < arr.len()
        invariant
            i <= arr@.len(),
            key_vecs(k_cid@) == keys_course_id(),
            key_vecs(k_cname@) == keys_hw_course_name(),
            key_vecs(k_deadline@) == keys_hw_deadline(),
            key_vecs(k_sid@) == keys_hw_student_id(),
            key_vecs(k_base@) == keys_hw_base_id(),
            key_vecs(k_title@) == keys_hw_title(),
            key_vecs(k_submit@) == keys_hw_submit_time(),
            key_vecs(k_comment@) == keys_hw_comment(),
            key_vecs(k_grader@) == keys_hw_grader(),
            key_vecs(k_gtime@) == keys_hw_grade_time(),
            out@.len() == i,
            forall|m: int|
                0 <= m < i ==> homework_matches(#[trigger] out@[m], arr@[m], courses@, status),
        decreases arr.len() - i,
    {
        let h = &arr[i];
        let course_id = pick_chars(h, &k_cid);
        let n = decoded_pick(h, &k_cname);
        let course_name = if n.as_str().unicode_len() == 0 {
            course_name_of(courses, course_id.as_str())
        } else {
            n
        };
        let deadline_raw = pick_chars(h, &k_deadline);
        let deadline = parse_deadline(deadline_raw.as_str());
        let hw = Homework {
            student_homework_id: pick_chars(h, &k_sid),
            base_id: pick_chars(h, &k_base),
            course_id,
            course_name,
            title: decoded_pick(h, &k_title),
            deadline,
            deadline_raw,
            submit_time: pick_chars(h, &k_submit),
            grade: parse_grade(h),
            comment: stripped_pick(h, &k_comment),
            grader: decoded_pick(h, &k_grader),
            grade_time: pick_chars(h, &k_gtime),
            status,
        };
        out.push(hw);
        i += 1;
    }
    out
}

} // verus!
