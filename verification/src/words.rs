//! The spellings of the recipe language's directive keywords and of the
//! built-in function names, as byte text, each beside its spec-level form.

use vstd::prelude::*;

verus! {

/// The spelling of `recipe`.
pub open spec fn kw_recipe_s() -> Seq<u8> {
    seq![114u8, 101u8, 99u8, 105u8, 112u8, 101u8]
}

/// Builds the byte text `recipe`.
pub fn kw_recipe() -> (r: Vec<u8>)
    ensures
        r@ =~= kw_recipe_s(),
{
    let mut v: Vec<u8> = Vec::new();
    v.push(114);
    v.push(101);
    v.push(99);
    v.push(105);
    v.push(112);
    v.push(101);
    v
}

/// The spelling of the file-inclusion directive.
pub open spec fn kw_inc_s() -> Seq<u8> {
    seq![105u8, 110u8, 99u8, 108u8, 117u8, 100u8, 101u8]
}

/// Builds the byte text of the file-inclusion directive.
pub fn kw_inc() -> (r: Vec<u8>)
    ensures
        r@ =~= kw_inc_s(),
{
    let mut v: Vec<u8> = Vec::new();
    v.push(105);
    v.push(110);
    v.push(99);
    v.push(108);
    v.push(117);
    v.push(100);
    v.push(101);
    v
}

/// The spelling of `when`.
pub open spec fn kw_when_s() -> Seq<u8> {
    seq![119u8, 104u8, 101u8, 110u8]
}

/// Builds the byte text `when`.
pub fn kw_when() -> (r: Vec<u8>)
    ensures
        r@ =~= kw_when_s(),
{
    let mut v: Vec<u8> = Vec::new();
    v.push(119);
    v.push(104);
    v.push(101);
    v.push(110);
    v
}

/// The spelling of `hidden`.
pub open spec fn kw_hidden_s() -> Seq<u8> {
    seq![104u8, 105u8, 100u8, 100u8, 101u8, 110u8]
}

/// Builds the byte text `hidden`.
pub fn kw_hidden() -> (r: Vec<u8>)
    ensures
        r@ =~= kw_hidden_s(),
{
    let mut v: Vec<u8> = Vec::new();
    v.push(104);
    v.push(105);
    v.push(100);
    v.push(100);
    v.push(101);
    v.push(110);
    v
}

/// The spelling of `global`.
pub open spec fn kw_global_s() -> Seq<u8> {
    seq![103u8, 108u8, 111u8, 98u8, 97u8, 108u8]
}

/// Builds the byte text `global`.
pub fn kw_global() -> (r: Vec<u8>)
    ensures
        r@ =~= kw_global_s(),
{
    let mut v: Vec<u8> = Vec::new();
    v.push(103);
    v.push(108);
    v.push(111);
    v.push(98);
    v.push(97);
    v.push(108);
    v
}

/// The spelling of `IF`.
pub open spec fn kw_if_s() -> Seq<u8> {
    seq![73u8, 70u8]
}

/// Builds the byte text `IF`.
pub fn kw_if() -> (r: Vec<u8>)
    ensures
        r@ =~= kw_if_s(),
{
    let mut v: Vec<u8> = Vec::new();
    v.push(73);
    v.push(70);
    v
}

/// The spelling of `ELSEIF`.
pub open spec fn kw_elseif_s() -> Seq<u8> {
    seq![69u8, 76u8, 83u8, 69u8, 73u8, 70u8]
}

/// Builds the byte text `ELSEIF`.
pub fn kw_elseif() -> (r: Vec<u8>)
    ensures
        r@ =~= kw_elseif_s(),
{
    let mut v: Vec<u8> = Vec::new();
    v.push(69);
    v.push(76);
    v.push(83);
    v.push(69);
    v.push(73);
    v.push(70);
    v
}

/// The spelling of `ELSE`.
pub open spec fn kw_else_s() -> Seq<u8> {
    seq![69u8, 76u8, 83u8, 69u8]
}

/// Builds the byte text `ELSE`.
pub fn kw_else() -> (r: Vec<u8>)
    ensures
        r@ =~= kw_else_s(),
{
    let mut v: Vec<u8> = Vec::new();
    v.push(69);
    v.push(76);
    v.push(83);
    v.push(69);
    v
}

/// The spelling of `END`.
pub open spec fn kw_end_s() -> Seq<u8> {
    seq![69u8, 78u8, 68u8]
}

/// Builds the byte text `END`.
pub fn kw_end() -> (r: Vec<u8>)
    ensures
        r@ =~= kw_end_s(),
{
    let mut v: Vec<u8> = Vec::new();
    v.push(69);
    v.push(78);
    v.push(68);
    v
}

/// The spelling of `WHILE`.
pub open spec fn kw_while_s() -> Seq<u8> {
    seq![87u8, 72u8, 73u8, 76u8, 69u8]
}

/// Builds the byte text `WHILE`.
pub fn kw_while() -> (r: Vec<u8>)
    ensures
        r@ =~= kw_while_s(),
{
    let mut v: Vec<u8> = Vec::new();
    v.push(87);
    v.push(72);
    v.push(73);
    v.push(76);
    v.push(69);
    v
}

/// The spelling of `FOR`.
pub open spec fn kw_for_s() -> Seq<u8> {
    seq![70u8, 79u8, 82u8]
}

/// Builds the byte text `FOR`.
pub fn kw_for() -> (r: Vec<u8>)
    ensures
        r@ =~= kw_for_s(),
{
    let mut v: Vec<u8> = Vec::new();
    v.push(70);
    v.push(79);
    v.push(82);
    v
}

/// The spelling of `FROM`.
pub open spec fn kw_from_s() -> Seq<u8> {
    seq![70u8, 82u8, 79u8, 77u8]
}

/// Builds the byte text `FROM`.
pub fn kw_from() -> (r: Vec<u8>)
    ensures
        r@ =~= kw_from_s(),
{
    let mut v: Vec<u8> = Vec::new();
    v.push(70);
    v.push(82);
    v.push(79);
    v.push(77);
    v
}

/// The spelling of `TO`.
pub open spec fn kw_to_s() -> Seq<u8> {
    seq![84u8, 79u8]
}

/// Builds the byte text `TO`.
pub fn kw_to() -> (r: Vec<u8>)
    ensures
        r@ =~= kw_to_s(),
{
    let mut v: Vec<u8> = Vec::new();
    v.push(84);
    v.push(79);
    v
}

/// The spelling of `STEP`.
pub open spec fn kw_step_s() -> Seq<u8> {
    seq![83u8, 84u8, 69u8, 80u8]
}

/// Builds the byte text `STEP`.
pub fn kw_step() -> (r: Vec<u8>)
    ensures
        r@ =~= kw_step_s(),
{
    let mut v: Vec<u8> = Vec::new();
    v.push(83);
    v.push(84);
    v.push(69);
    v.push(80);
    v
}

/// The spelling of `IN`.
pub open spec fn kw_in_s() -> Seq<u8> {
    seq![73u8, 78u8]
}

/// Builds the byte text `IN`.
pub fn kw_in() -> (r: Vec<u8>)
    ensures
        r@ =~= kw_in_s(),
{
    let mut v: Vec<u8> = Vec::new();
    v.push(73);
    v.push(78);
    v
}

/// The spelling of `BREAK`.
pub open spec fn kw_break_s() -> Seq<u8> {
    seq![66u8, 82u8, 69u8, 65u8, 75u8]
}

/// Builds the byte text `BREAK`.
pub fn kw_break() -> (r: Vec<u8>)
    ensures
        r@ =~= kw_break_s(),
{
    let mut v: Vec<u8> = Vec::new();
    v.push(66);
    v.push(82);
    v.push(69);
    v.push(65);
    v.push(75);
    v
}

/// The spelling of `CONTINUE`.
pub open spec fn kw_continue_s() -> Seq<u8> {
    seq![67u8, 79u8, 78u8, 84u8, 73u8, 78u8, 85u8, 69u8]
}

/// Builds the byte text `CONTINUE`.
pub fn kw_continue() -> (r: Vec<u8>)
    ensures
        r@ =~= kw_continue_s(),
{
    let mut v: Vec<u8> = Vec::new();
    v.push(67);
    v.push(79);
    v.push(78);
    v.push(84);
    v.push(73);
    v.push(78);
    v.push(85);
    v.push(69);
    v
}

/// The spelling of `ASSERT`.
pub open spec fn kw_assert_s() -> Seq<u8> {
    seq![65u8, 83u8, 83u8, 69u8, 82u8, 84u8]
}

/// Builds the byte text `ASSERT`.
pub fn kw_assert() -> (r: Vec<u8>)
    ensures
        r@ =~= kw_assert_s(),
{
    let mut v: Vec<u8> = Vec::new();
    v.push(65);
    v.push(83);
    v.push(83);
    v.push(69);
    v.push(82);
    v.push(84);
    v
}

/// The spelling of `RAISE`.
pub open spec fn kw_raise_s() -> Seq<u8> {
    seq![82u8, 65u8, 73u8, 83u8, 69u8]
}

/// Builds the byte text `RAISE`.
pub fn kw_raise() -> (r: Vec<u8>)
    ensures
        r@ =~= kw_raise_s(),
{
    let mut v: Vec<u8> = Vec::new();
    v.push(82);
    v.push(65);
    v.push(73);
    v.push(83);
    v.push(69);
    v
}

/// The spelling of `CD`.
pub open spec fn kw_cd_s() -> Seq<u8> {
    seq![67u8, 68u8]
}

/// Builds the byte text `CD`.
pub fn kw_cd() -> (r: Vec<u8>)
    ensures
        r@ =~= kw_cd_s(),
{
    let mut v: Vec<u8> = Vec::new();
    v.push(67);
    v.push(68);
    v
}

/// The spelling of `upper`.
pub open spec fn fn_upper_s() -> Seq<u8> {
    seq![117u8, 112u8, 112u8, 101u8, 114u8]
}

/// Builds the byte text `upper`.
pub fn fn_upper() -> (r: Vec<u8>)
    ensures
        r@ =~= fn_upper_s(),
{
    let mut v: Vec<u8> = Vec::new();
    v.push(117);
    v.push(112);
    v.push(112);
    v.push(101);
    v.push(114);
    v
}

/// The spelling of `lower`.
pub open spec fn fn_lower_s() -> Seq<u8> {
    seq![108u8, 111u8, 119u8, 101u8, 114u8]
}

/// Builds the byte text `lower`.
pub fn fn_lower() -> (r: Vec<u8>)
    ensures
        r@ =~= fn_lower_s(),
{
    let mut v: Vec<u8> = Vec::new();
    v.push(108);
    v.push(111);
    v.push(119);
    v.push(101);
    v.push(114);
    v
}

/// The spelling of `len`.
pub open spec fn fn_len_s() -> Seq<u8> {
    seq![108u8, 101u8, 110u8]
}

/// Builds the byte text `len`.
pub fn fn_len() -> (r: Vec<u8>)
    ensures
        r@ =~= fn_len_s(),
{
    let mut v: Vec<u8> = Vec::new();
    v.push(108);
    v.push(101);
    v.push(110);
    v
}

/// The spelling of the integer-coercion built-in.
pub open spec fn fn_int_s() -> Seq<u8> {
    seq![105u8, 110u8, 116u8]
}

/// Builds the byte text of the integer-coercion built-in.
pub fn fn_int() -> (r: Vec<u8>)
    ensures
        r@ =~= fn_int_s(),
{
    let mut v: Vec<u8> = Vec::new();
    v.push(105);
    v.push(110);
    v.push(116);
    v
}

/// The role name `from` of a FOR bound, for diagnostics.
pub open spec fn role_from_s() -> Seq<u8> {
    seq![102u8, 114u8, 111u8, 109u8]
}

/// Builds the byte text `from`.
pub fn role_from() -> (r: Vec<u8>)
    ensures
        r@ =~= role_from_s(),
{
    let mut v: Vec<u8> = Vec::new();
    v.push(102);
    v.push(114);
    v.push(111);
    v.push(109);
    v
}

/// The role name `to` of a FOR bound, for diagnostics.
pub open spec fn role_to_s() -> Seq<u8> {
    seq![116u8, 111u8]
}

/// Builds the byte text `to`.
pub fn role_to() -> (r: Vec<u8>)
    ensures
        r@ =~= role_to_s(),
{
    let mut v: Vec<u8> = Vec::new();
    v.push(116);
    v.push(111);
    v
}

/// The role name `step` of a FOR bound, for diagnostics.
pub open spec fn role_step_s() -> Seq<u8> {
    seq![115u8, 116u8, 101u8, 112u8]
}

/// Builds the byte text `step`.
pub fn role_step() -> (r: Vec<u8>)
    ensures
        r@ =~= role_step_s(),
{
    let mut v: Vec<u8> = Vec::new();
    v.push(115);
    v.push(116);
    v.push(101);
    v.push(112);
    v
}

/// The spelling of the environment-query built-in.
pub open spec fn fn_env_s() -> Seq<u8> {
    seq![101u8, 110u8, 118u8]
}

/// Builds the byte text of the environment-query built-in.
pub fn fn_env() -> (r: Vec<u8>)
    ensures
        r@ =~= fn_env_s(),
{
    let mut v: Vec<u8> = Vec::new();
    v.push(101);
    v.push(110);
    v.push(118);
    v
}

} // verus!
