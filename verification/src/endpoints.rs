//! The Learn endpoints, request form values and cache keys.
use vstd::prelude::*;
use crate::models::HomeworkStatus;
use crate::text::{chars_of, extend_chars, string_of};

verus! {

broadcast use vstd::string::group_string_axioms;

pub open spec fn learn_origin_spec() -> Seq<char> {
    seq!['h', 't', 't', 'p', 's', ':', '/', '/', 'l', 'e', 'a', 'r', 'n', '.', 't', 's', 'i', 'n', 'g', 'h', 'u', 'a', '.', 'e', 'd', 'u', '.', 'c', 'n']
}

/// The Learn origin.
pub fn learn_origin() -> (r: String)
    ensures
        r@ == learn_origin_spec(),
{
    let v = vec!['h', 't', 't', 'p', 's', ':', '/', '/', 'l', 'e', 'a', 'r', 'n', '.', 't', 's', 'i', 'n', 'g', 'h', 'u', 'a', '.', 'e', 'd', 'u', '.', 'c', 'n'];
    string_of(&v)
}

pub open spec fn semester_url_spec() -> Seq<char> {
    seq!['h', 't', 't', 'p', 's', ':', '/', '/', 'l', 'e', 'a', 'r', 'n', '.', 't', 's', 'i', 'n', 'g', 'h', 'u', 'a', '.', 'e', 'd', 'u', '.', 'c', 'n', '/', 'b', '/', 'k', 'c', '/', 'z', 'h', 'j', 'w', '_', 'v', '_', 'c', 'o', 'd', 'e', '_', 'x', 'n', 'x', 'q', '/', 'g', 'e', 't', 'C', 'u', 'r', 'r', 'e', 'n', 't', 'A', 'n', 'd', 'N', 'e', 'x', 't', 'S', 'e', 'm', 'e', 's', 't', 'e', 'r']
}

/// Endpoint for the current semester.
pub fn semester_url() -> (r: String)
    ensures
        r@ == semester_url_spec(),
{
    let v = vec!['h', 't', 't', 'p', 's', ':', '/', '/', 'l', 'e', 'a', 'r', 'n', '.', 't', 's', 'i', 'n', 'g', 'h', 'u', 'a', '.', 'e', 'd', 'u', '.', 'c', 'n', '/', 'b', '/', 'k', 'c', '/', 'z', 'h', 'j', 'w', '_', 'v', '_', 'c', 'o', 'd', 'e', '_', 'x', 'n', 'x', 'q', '/', 'g', 'e', 't', 'C', 'u', 'r', 'r', 'e', 'n', 't', 'A', 'n', 'd', 'N', 'e', 'x', 't', 'S', 'e', 'm', 'e', 's', 't', 'e', 'r'];
    string_of(&v)
}

pub open spec fn homework_pending_url_spec() -> Seq<char> {
    seq!['h', 't', 't', 'p', 's', ':', '/', '/', 'l', 'e', 'a', 'r', 'n', '.', 't', 's', 'i', 'n', 'g', 'h', 'u', 'a', '.', 'e', 'd', 'u', '.', 'c', 'n', '/', 'b', '/', 'w', 'l', 'x', 't', '/', 'k', 'c', 'z', 'y', '/', 'z', 'y', '/', 's', 't', 'u', 'd', 'e', 'n', 't', '/', 'z', 'y', 'L', 'i', 's', 't', 'W', 'j']
}

/// Endpoint listing pending homework.
pub fn homework_pending_url() -> (r: String)
    ensures
        r@ == homework_pending_url_spec(),
{
    let v = vec!['h', 't', 't', 'p', 's', ':', '/', '/', 'l', 'e', 'a', 'r', 'n', '.', 't', 's', 'i', 'n', 'g', 'h', 'u', 'a', '.', 'e', 'd', 'u', '.', 'c', 'n', '/', 'b', '/', 'w', 'l', 'x', 't', '/', 'k', 'c', 'z', 'y', '/', 'z', 'y', '/', 's', 't', 'u', 'd', 'e', 'n', 't', '/', 'z', 'y', 'L', 'i', 's', 't', 'W', 'j'];
    string_of(&v)
}

pub open spec fn homework_submitted_url_spec() -> Seq<char> {
    seq!['h', 't', 't', 'p', 's', ':', '/', '/', 'l', 'e', 'a', 'r', 'n', '.', 't', 's', 'i', 'n', 'g', 'h', 'u', 'a', '.', 'e', 'd', 'u', '.', 'c', 'n', '/', 'b', '/', 'w', 'l', 'x', 't', '/', 'k', 'c', 'z', 'y', '/', 'z', 'y', '/', 's', 't', 'u', 'd', 'e', 'n', 't', '/', 'z', 'y', 'L', 'i', 's', 't', 'Y', 'j', 'w', 'g']
}

/// Endpoint listing submitted homework.
pub fn homework_submitted_url() -> (r: String)
    ensures
        r@ == homework_submitted_url_spec(),
{
    let v = vec!['h', 't', 't', 'p', 's', ':', '/', '/', 'l', 'e', 'a', 'r', 'n', '.', 't', 's', 'i', 'n', 'g', 'h', 'u', 'a', '.', 'e', 'd', 'u', '.', 'c', 'n', '/', 'b', '/', 'w', 'l', 'x', 't', '/', 'k', 'c', 'z', 'y', '/', 'z', 'y', '/', 's', 't', 'u', 'd', 'e', 'n', 't', '/', 'z', 'y', 'L', 'i', 's', 't', 'Y', 'j', 'w', 'g'];
    string_of(&v)
}

pub open spec fn homework_graded_url_spec() -> Seq<char> {
    seq!['h', 't', 't', 'p', 's', ':', '/', '/', 'l', 'e', 'a', 'r', 'n', '.', 't', 's', 'i', 'n', 'g', 'h', 'u', 'a', '.', 'e', 'd', 'u', '.', 'c', 'n', '/', 'b', '/', 'w', 'l', 'x', 't', '/', 'k', 'c', 'z', 'y', '/', 'z', 'y', '/', 's', 't', 'u', 'd', 'e', 'n', 't', '/', 'z', 'y', 'L', 'i', 's', 't', 'Y', 'p', 'g']
}

/// Endpoint listing graded homework.
pub fn homework_graded_url() -> (r: String)
    ensures
        r@ == homework_graded_url_spec(),
{
    let v = vec!['h', 't', 't', 'p', 's', ':', '/', '/', 'l', 'e', 'a', 'r', 'n', '.', 't', 's', 'i', 'n', 'g', 'h', 'u', 'a', '.', 'e', 'd', 'u', '.', 'c', 'n', '/', 'b', '/', 'w', 'l', 'x', 't', '/', 'k', 'c', 'z', 'y', '/', 'z', 'y', '/', 's', 't', 'u', 'd', 'e', 'n', 't', '/', 'z', 'y', 'L', 'i', 's', 't', 'Y', 'p', 'g'];
    string_of(&v)
}

pub open spec fn homework_detail_url_spec() -> Seq<char> {
    seq!['h', 't', 't', 'p', 's', ':', '/', '/', 'l', 'e', 'a', 'r', 'n', '.', 't', 's', 'i', 'n', 'g', 'h', 'u', 'a', '.', 'e', 'd', 'u', '.', 'c', 'n', '/', 'b', '/', 'w', 'l', 'x', 't', '/', 'k', 'c', 'z', 'y', '/', 'z', 'y', '/', 's', 't', 'u', 'd', 'e', 'n', 't', '/', 'd', 'e', 't', 'a', 'i', 'l']
}

/// Endpoint for a homework description.
pub fn homework_detail_url() -> (r: String)
    ensures
        r@ == homework_detail_url_spec(),
{
    let v = vec!['h', 't', 't', 'p', 's', ':', '/', '/', 'l', 'e', 'a', 'r', 'n', '.', 't', 's', 'i', 'n', 'g', 'h', 'u', 'a', '.', 'e', 'd', 'u', '.', 'c', 'n', '/', 'b', '/', 'w', 'l', 'x', 't', '/', 'k', 'c', 'z', 'y', '/', 'z', 'y', '/', 's', 't', 'u', 'd', 'e', 'n', 't', '/', 'd', 'e', 't', 'a', 'i', 'l'];
    string_of(&v)
}

pub open spec fn notification_list_url_spec() -> Seq<char> {
    seq!['h', 't', 't', 'p', 's', ':', '/', '/', 'l', 'e', 'a', 'r', 'n', '.', 't', 's', 'i', 'n', 'g', 'h', 'u', 'a', '.', 'e', 'd', 'u', '.', 'c', 'n', '/', 'b', '/', 'w', 'l', 'x', 't', '/', 'k', 'c', 'g', 'g', '/', 'w', 'l', 'k', 'c', '_', 'g', 'g', 'b', '/', 's', 't', 'u', 'd', 'e', 'n', 't', '/', 'p', 'a', 'g', 'e', 'L', 'i', 's', 't', 'X', 's', 'b', 'y', 'W', 'g', 'q']
}

/// Endpoint listing non-expired announcements.
pub fn notification_list_url() -> (r: String)
    ensures
        r@ == notification_list_url_spec(),
{
    let v = vec!['h', 't', 't', 'p', 's', ':', '/', '/', 'l', 'e', 'a', 'r', 'n', '.', 't', 's', 'i', 'n', 'g', 'h', 'u', 'a', '.', 'e', 'd', 'u', '.', 'c', 'n', '/', 'b', '/', 'w', 'l', 'x', 't', '/', 'k', 'c', 'g', 'g', '/', 'w', 'l', 'k', 'c', '_', 'g', 'g', 'b', '/', 's', 't', 'u', 'd', 'e', 'n', 't', '/', 'p', 'a', 'g', 'e', 'L', 'i', 's', 't', 'X', 's', 'b', 'y', 'W', 'g', 'q'];
    string_of(&v)
}

pub open spec fn submit_url_spec() -> Seq<char> {
    seq!['h', 't', 't', 'p', 's', ':', '/', '/', 'l', 'e', 'a', 'r', 'n', '.', 't', 's', 'i', 'n', 'g', 'h', 'u', 'a', '.', 'e', 'd', 'u', '.', 'c', 'n', '/', 'b', '/', 'w', 'l', 'x', 't', '/', 'k', 'c', 'z', 'y', '/', 'z', 'y', '/', 's', 't', 'u', 'd', 'e', 'n', 't', '/', 't', 'j', 'z', 'y']
}

/// Endpoint for homework submission.
pub fn submit_url() -> (r: String)
    ensures
        r@ == submit_url_spec(),
{
    let v = vec!['h', 't', 't', 'p', 's', ':', '/', '/', 'l', 'e', 'a', 'r', 'n', '.', 't', 's', 'i', 'n', 'g', 'h', 'u', 'a', '.', 'e', 'd', 'u', '.', 'c', 'n', '/', 'b', '/', 'w', 'l', 'x', 't', '/', 'k', 'c', 'z', 'y', '/', 'z', 'y', '/', 's', 't', 'u', 'd', 'e', 'n', 't', '/', 't', 'j', 'z', 'y'];
    string_of(&v)
}

pub open spec fn course_list_prefix() -> Seq<char> {
    seq!['h', 't', 't', 'p', 's', ':', '/', '/', 'l', 'e', 'a', 'r', 'n', '.', 't', 's', 'i', 'n', 'g', 'h', 'u', 'a', '.', 'e', 'd', 'u', '.', 'c', 'n', '/', 'b', '/', 'w', 'l', 'x', 't', '/', 'k', 'c', '/', 'v', '_', 'w', 'l', 'k', 'c', '_', 'x', 's', '_', 'x', 'k', 'b', '_', 'k', 'c', 'b', '_', 'e', 'x', 't', 'e', 'n', 'd', '/', 's', 't', 'u', 'd', 'e', 'n', 't', '/', 'l', 'o', 'a', 'd', 'C', 'o', 'u', 'r', 's', 'e', 'B', 'y', 'S', 'e', 'm', 'e', 's', 't', 'e', 'r', 'I', 'd', '/']
}

fn course_list_prefix_exec() -> (r: Vec<char>)
    ensures
        r@ == course_list_prefix(),
{
    vec!['h', 't', 't', 'p', 's', ':', '/', '/', 'l', 'e', 'a', 'r', 'n', '.', 't', 's', 'i', 'n', 'g', 'h', 'u', 'a', '.', 'e', 'd', 'u', '.', 'c', 'n', '/', 'b', '/', 'w', 'l', 'x', 't', '/', 'k', 'c', '/', 'v', '_', 'w', 'l', 'k', 'c', '_', 'x', 's', '_', 'x', 'k', 'b', '_', 'k', 'c', 'b', '_', 'e', 'x', 't', 'e', 'n', 'd', '/', 's', 't', 'u', 'd', 'e', 'n', 't', '/', 'l', 'o', 'a', 'd', 'C', 'o', 'u', 'r', 's', 'e', 'B', 'y', 'S', 'e', 'm', 'e', 's', 't', 'e', 'r', 'I', 'd', '/']
}

pub open spec fn course_list_suffix() -> Seq<char> {
    seq!['/', 'z', 'h']
}

fn course_list_suffix_exec() -> (r: Vec<char>)
    ensures
        r@ == course_list_suffix(),
{
    vec!['/', 'z', 'h']
}

pub open spec fn attachments_prefix() -> Seq<char> {
    seq!['h', 't', 't', 'p', 's', ':', '/', '/', 'l', 'e', 'a', 'r', 'n', '.', 't', 's', 'i', 'n', 'g', 'h', 'u', 'a', '.', 'e', 'd', 'u', '.', 'c', 'n', '/', 'f', '/', 'w', 'l', 'x', 't', '/', 'k', 'c', 'z', 'y', '/', 'z', 'y', '/', 's', 't', 'u', 'd', 'e', 'n', 't', '/', 'v', 'i', 'e', 'w', 'C', 'j', '?', 'w', 'l', 'k', 'c', 'i', 'd', '=']
}

fn attachments_prefix_exec() -> (r: Vec<char>)
    ensures
        r@ == attachments_prefix(),
{
    vec!['h', 't', 't', 'p', 's', ':', '/', '/', 'l', 'e', 'a', 'r', 'n', '.', 't', 's', 'i', 'n', 'g', 'h', 'u', 'a', '.', 'e', 'd', 'u', '.', 'c', 'n', '/', 'f', '/', 'w', 'l', 'x', 't', '/', 'k', 'c', 'z', 'y', '/', 'z', 'y', '/', 's', 't', 'u', 'd', 'e', 'n', 't', '/', 'v', 'i', 'e', 'w', 'C', 'j', '?', 'w', 'l', 'k', 'c', 'i', 'd', '=']
}

pub open spec fn attachments_middle() -> Seq<char> {
    seq!['&', 'x', 's', 'z', 'y', 'i', 'd', '=']
}

fn attachments_middle_exec() -> (r: Vec<char>)
    ensures
        r@ == attachments_middle(),
{
    vec!['&', 'x', 's', 'z', 'y', 'i', 'd', '=']
}

pub open spec fn file_list_prefix() -> Seq<char> {
    seq!['h', 't', 't', 'p', 's', ':', '/', '/', 'l', 'e', 'a', 'r', 'n', '.', 't', 's', 'i', 'n', 'g', 'h', 'u', 'a', '.', 'e', 'd', 'u', '.', 'c', 'n', '/', 'b', '/', 'w', 'l', 'x', 't', '/', 'k', 'j', '/', 'w', 'l', 'k', 'c', '_', 'k', 'j', 'x', 'x', 'b', '/', 's', 't', 'u', 'd', 'e', 'n', 't', '/', 'k', 'j', 'x', 'x', 'b', 'B', 'y', 'W', 'l', 'k', 'c', 'i', 'd', 'A', 'n', 'd', 'S', 'i', 'z', 'e', 'F', 'o', 'r', 'S', 't', 'u', 'd', 'e', 'n', 't', '?', 'w', 'l', 'k', 'c', 'i', 'd', '=']
}

fn file_list_prefix_exec() -> (r: Vec<char>)
    ensures
        r@ == file_list_prefix(),
{
    vec!['h', 't', 't', 'p', 's', ':', '/', '/', 'l', 'e', 'a', 'r', 'n', '.', 't', 's', 'i', 'n', 'g', 'h', 'u', 'a', '.', 'e', 'd', 'u', '.', 'c', 'n', '/', 'b', '/', 'w', 'l', 'x', 't', '/', 'k', 'j', '/', 'w', 'l', 'k', 'c', '_', 'k', 'j', 'x', 'x', 'b', '/', 's', 't', 'u', 'd', 'e', 'n', 't', '/', 'k', 'j', 'x', 'x', 'b', 'B', 'y', 'W', 'l', 'k', 'c', 'i', 'd', 'A', 'n', 'd', 'S', 'i', 'z', 'e', 'F', 'o', 'r', 'S', 't', 'u', 'd', 'e', 'n', 't', '?', 'w', 'l', 'k', 'c', 'i', 'd', '=']
}

pub open spec fn file_list_suffix() -> Seq<char> {
    seq!['&', 's', 'i', 'z', 'e', '=', '2', '0', '0']
}

fn file_list_suffix_exec() -> (r: Vec<char>)
    ensures
        r@ == file_list_suffix(),
{
    vec!['&', 's', 'i', 'z', 'e', '=', '2', '0', '0']
}

pub open spec fn download_prefix() -> Seq<char> {
    seq!['h', 't', 't', 'p', 's', ':', '/', '/', 'l', 'e', 'a', 'r', 'n', '.', 't', 's', 'i', 'n', 'g', 'h', 'u', 'a', '.', 'e', 'd', 'u', '.', 'c', 'n', '/', 'b', '/', 'w', 'l', 'x', 't', '/', 'k', 'j', '/', 'w', 'l', 'k', 'c', '_', 'k', 'j', 'x', 'x', 'b', '/', 's', 't', 'u', 'd', 'e', 'n', 't', '/', 'd', 'o', 'w', 'n', 'l', 'o', 'a', 'd', 'F', 'i', 'l', 'e', '?', 's', 'f', 'g', 'k', '=', '0', '&', 'w', 'j', 'i', 'd', '=']
}

fn download_prefix_exec() -> (r: Vec<char>)
    ensures
        r@ == download_prefix(),
{
    vec!['h', 't', 't', 'p', 's', ':', '/', '/', 'l', 'e', 'a', 'r', 'n', '.', 't', 's', 'i', 'n', 'g', 'h', 'u', 'a', '.', 'e', 'd', 'u', '.', 'c', 'n', '/', 'b', '/', 'w', 'l', 'x', 't', '/', 'k', 'j', '/', 'w', 'l', 'k', 'c', '_', 'k', 'j', 'x', 'x', 'b', '/', 's', 't', 'u', 'd', 'e', 'n', 't', '/', 'd', 'o', 'w', 'n', 'l', 'o', 'a', 'd', 'F', 'i', 'l', 'e', '?', 's', 'f', 'g', 'k', '=', '0', '&', 'w', 'j', 'i', 'd', '=']
}

pub open spec fn ao_data_prefix() -> Seq<char> {
    seq!['[', '{', '"', 'n', 'a', 'm', 'e', '"', ':', '"', 'w', 'l', 'k', 'c', 'i', 'd', '"', ',', '"', 'v', 'a', 'l', 'u', 'e', '"', ':', '"']
}

fn ao_data_prefix_exec() -> (r: Vec<char>)
    ensures
        r@ == ao_data_prefix(),
{
    vec!['[', '{', '"', 'n', 'a', 'm', 'e', '"', ':', '"', 'w', 'l', 'k', 'c', 'i', 'd', '"', ',', '"', 'v', 'a', 'l', 'u', 'e', '"', ':', '"']
}

pub open spec fn ao_data_suffix() -> Seq<char> {
    seq!['"', '}', ']']
}

fn ao_data_suffix_exec() -> (r: Vec<char>)
    ensures
        r@ == ao_data_suffix(),
{
    vec!['"', '}', ']']
}

pub open spec fn courses_cache_prefix() -> Seq<char> {
    seq!['c', 'o', 'u', 'r', 's', 'e', 's', '_']
}

fn courses_cache_prefix_exec() -> (r: Vec<char>)
    ensures
        r@ == courses_cache_prefix(),
{
    vec!['c', 'o', 'u', 'r', 's', 'e', 's', '_']
}

pub open spec fn semester_cache_key() -> Seq<char> {
    seq!['s', 'e', 'm', 'e', 's', 't', 'e', 'r']
}

fn semester_cache_key_exec() -> (r: Vec<char>)
    ensures
        r@ == semester_cache_key(),
{
    vec!['s', 'e', 'm', 'e', 's', 't', 'e', 'r']
}


fn concat3(a: &[char], b: &[char], c: &[char]) -> (r: String)
    ensures
        r@ == a@ + b@ + c@,
{
    let mut v: Vec<char> = Vec::new();
    extend_chars(&mut v, a);
    extend_chars(&mut v, b);
    extend_chars(&mut v, c);
    string_of(&v)
}

/// Courses of one semester.
pub fn course_list_url(semester: &str) -> (r: String)
    ensures
        r@ == course_list_prefix() + semester@ + course_list_suffix(),
{
    concat3(&course_list_prefix_exec(), &chars_of(semester), &course_list_suffix_exec())
}

/// The homework page whose HTML lists the attachments.
pub fn attachments_page_url(wlkcid: &str, xszyid: &str) -> (r: String)
    ensures
        r@ == attachments_prefix() + wlkcid@ + attachments_middle() + xszyid@,
{
    let mut v = attachments_prefix_exec();
    extend_chars(&mut v, &chars_of(wlkcid));
    extend_chars(&mut v, &attachments_middle_exec());
    extend_chars(&mut v, &chars_of(xszyid));
    string_of(&v)
}

/// Files of one course (at most 200).
pub fn file_list_url(course_id: &str) -> (r: String)
    ensures
        r@ == file_list_prefix() + course_id@ + file_list_suffix(),
{
    concat3(&file_list_prefix_exec(), &chars_of(course_id), &file_list_suffix_exec())
}

/// File download URL.
pub fn file_download_url(file_id: &str) -> (r: String)
    ensures
        r@ == download_prefix() + file_id@,
{
    concat3(&download_prefix_exec(), &chars_of(file_id), &[])
}

/// The `aoData` form value that restricts announcements to one course.
pub fn notification_ao_data(course_id: &str) -> (r: String)
    ensures
        r@ == ao_data_prefix() + course_id@ + ao_data_suffix(),
{
    concat3(&ao_data_prefix_exec(), &chars_of(course_id), &ao_data_suffix_exec())
}

/// Cache key of the current semester.
pub fn semester_cache_key_text() -> (r: String)
    ensures
        r@ == semester_cache_key(),
{
    string_of(&semester_cache_key_exec())
}

/// Cache key of one semester's course list.
pub fn courses_cache_key(semester: &str) -> (r: String)
    ensures
        r@ == courses_cache_prefix() + semester@,
{
    concat3(&courses_cache_prefix_exec(), &chars_of(semester), &[])
}

/// The three homework lists and the status of the items each returns.
pub fn homework_sources() -> (r: Vec<(String, HomeworkStatus)>)
    ensures
        r@.len() == 3,
        r@[0].0@ == homework_pending_url_spec() && r@[0].1 == HomeworkStatus::Pending,
        r@[1].0@ == homework_submitted_url_spec() && r@[1].1 == HomeworkStatus::Submitted,
        r@[2].0@ == homework_graded_url_spec() && r@[2].1 == HomeworkStatus::Graded,
{
    let mut r: Vec<(String, HomeworkStatus)> = Vec::new();
    r.push((homework_pending_url(), HomeworkStatus::Pending));
    r.push((homework_submitted_url(), HomeworkStatus::Submitted));
    r.push((homework_graded_url(), HomeworkStatus::Graded));
    r
}

// ---------------------------------------------------------------------------
// Form fields
// ---------------------------------------------------------------------------

/// A form field as name and value.
pub type FormField = (String, String);

pub open spec fn field_view(f: FormField) -> (Seq<char>, Seq<char>) {
    (f.0@, f.1@)
}

pub open spec fn fields_view(fs: Seq<FormField>) -> Seq<(Seq<char>, Seq<char>)> {
    fs.map_values(|f: FormField| field_view(f))
}

pub open spec fn ao_data_name() -> Seq<char> {
    seq!['a', 'o', 'D', 'a', 't', 'a']
}

fn field(name: Vec<char>, value: &str) -> (r: FormField)
    ensures
        field_view(r) == (name@, value@),
{
    (string_of(&name), value.to_string())
}

/// The form of a homework list request: `aoData=[]`, no course filter.
pub fn homework_list_form() -> (r: Vec<FormField>)
    ensures
        fields_view(r@) == seq![(ao_data_name(), seq!['[', ']'])],
{
    let f = field(vec!['a', 'o', 'D', 'a', 't', 'a'], &string_of(&vec!['[', ']']));
    let r = vec![f];
    assert(fields_view(r@) =~= seq![field_view(f)]);
    r
}

/// The form of an announcement list request for one course.
pub fn notification_form(course_id: &str) -> (r: Vec<FormField>)
    ensures
        fields_view(r@) == seq![(ao_data_name(), ao_data_prefix() + course_id@ + ao_data_suffix())],
{
    let f = field(vec!['a', 'o', 'D', 'a', 't', 'a'], &notification_ao_data(course_id));
    let r = vec![f];
    assert(fields_view(r@) =~= seq![field_view(f)]);
    r
}

/// The form of a homework detail request: `id` is the base homework ID (`zyid`).
pub fn homework_detail_form(zyid: &str) -> (r: Vec<FormField>)
    ensures
        fields_view(r@) == seq![(seq!['i', 'd'], zyid@)],
{
    let f = field(vec!['i', 'd'], zyid);
    let r = vec![f];
    assert(fields_view(r@) =~= seq![field_view(f)]);
    r
}

/// The text fields of a submission: the student homework ID, `isDeleted=0`, and the
/// comment.
pub fn submission_form(student_homework_id: &str, comment: &str) -> (r: Vec<FormField>)
    ensures
        fields_view(r@) == seq![
            (seq!['x', 's', 'z', 'y', 'i', 'd'], student_homework_id@),
            (seq!['i', 's', 'D', 'e', 'l', 'e', 't', 'e', 'd'], seq!['0']),
            (seq!['z', 'y', 'n', 'r'], comment@),
        ],
{
    let na = vec!['x', 's', 'z', 'y', 'i', 'd'];
    let nb = vec!['i', 's', 'D', 'e', 'l', 'e', 't', 'e', 'd'];
    let nc = vec!['z', 'y', 'n', 'r'];
    let zero = vec!['0'];
    assert(na@ == seq!['x', 's', 'z', 'y', 'i', 'd']);
    assert(nb@ == seq!['i', 's', 'D', 'e', 'l', 'e', 't', 'e', 'd']);
    assert(nc@ == seq!['z', 'y', 'n', 'r']);
    assert(zero@ == seq!['0']);
    let a = field(na, student_homework_id);
    let b = field(nb, &string_of(&zero));
    let c = field(nc, comment);
    let r = vec![a, b, c];
    assert(fields_view(r@) =~= seq![field_view(a), field_view(b), field_view(c)]);
    r
}

/// The name of the submitted file's form part.
pub fn submission_file_field() -> (r: String)
    ensures
        r@ == seq!['f', 'i', 'l', 'e', 'u', 'p', 'l', 'o', 'a', 'd'],
{
    string_of(&vec!['f', 'i', 'l', 'e', 'u', 'p', 'l', 'o', 'a', 'd'])
}

/// The file name sent with a submission: the file's own name, or `submission` when the
/// path has none.
pub fn submission_file_name(file_name: Option<String>) -> (r: String)
    ensures
        r@ == match file_name {
            Some(n) => n@,
            None => seq!['s', 'u', 'b', 'm', 'i', 's', 's', 'i', 'o', 'n'],
        },
{
    match file_name {
        Some(n) => n,
        None => string_of(&vec!['s', 'u', 'b', 'm', 'i', 's', 's', 'i', 'o', 'n']),
    }
}

} // verus!
