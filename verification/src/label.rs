//! The labels of scheduled operations: one line of text each, for logs.

use crate::text::{decimal, decimal_string, push_decimal};
use vstd::prelude::*;
use vstd::string::*;

verus! {

pub open spec fn load_text(mid: int, k_at: int) -> Seq<char> {
    decimal(mid) + " load map workload of k "@ + decimal(k_at) + " from memory."@
}

/// The label of a mapper's load of its share of K, which starts at `k_at`.
pub fn load_label(mid: usize, k_at: u128) -> (s: String)
    ensures
        s@ == load_text(mid as int, k_at as int),
{
    let mut s = decimal_string(mid as u128);
    s.append(" load map workload of k ");
    push_decimal(&mut s, k_at);
    s.append(" from memory.");
    s
}

pub open spec fn cross_text(mid: int, m: int, n: int, k: int) -> Seq<char> {
    decimal(mid) + " performs cross-product of "@ + decimal(m) + " x "@ + decimal(n)
        + " with k "@ + decimal(k)
}

/// The label of a mapper's outer product of an `m` x `n` block over `k`.
pub fn cross_label(mid: usize, m: usize, n: usize, k: usize) -> (s: String)
    ensures
        s@ == cross_text(mid as int, m as int, n as int, k as int),
{
    let mut s = decimal_string(mid as u128);
    s.append(" performs cross-product of ");
    push_decimal(&mut s, m as u128);
    s.append(" x ");
    push_decimal(&mut s, n as u128);
    s.append(" with k ");
    push_decimal(&mut s, k as u128);
    s
}

pub open spec fn to_local_text(mid: int, rid: int, size: int) -> Seq<char> {
    "Transfer from "@ + decimal(mid) + " to local "@ + decimal(rid) + ", data size "@ + decimal(
        size,
    )
}

/// The label of a mapper's transfer into a reducer's own scratchpad.
pub fn to_local_label(mid: usize, rid: usize, size: usize) -> (s: String)
    ensures
        s@ == to_local_text(mid as int, rid as int, size as int),
{
    let mut s = String::from_str("Transfer from ");
    push_decimal(&mut s, mid as u128);
    s.append(" to local ");
    push_decimal(&mut s, rid as u128);
    s.append(", data size ");
    push_decimal(&mut s, size as u128);
    s
}

pub open spec fn to_remote_text(mid: int, holder: int, rid: int, size: int) -> Seq<char> {
    "Transfer from "@ + decimal(mid) + " to remote "@ + decimal(holder) + " of "@ + decimal(rid)
        + ", data size "@ + decimal(size)
}

/// The label of a mapper's transfer into scratchpad that a reducer holds
/// on another processing element.
pub fn to_remote_label(mid: usize, holder: usize, rid: usize, size: usize) -> (s: String)
    ensures
        s@ == to_remote_text(mid as int, holder as int, rid as int, size as int),
{
    let mut s = String::from_str("Transfer from ");
    push_decimal(&mut s, mid as u128);
    s.append(" to remote ");
    push_decimal(&mut s, holder as u128);
    s.append(" of ");
    push_decimal(&mut s, rid as u128);
    s.append(", data size ");
    push_decimal(&mut s, size as u128);
    s
}

pub open spec fn to_memory_text(mid: int, size: int) -> Seq<char> {
    "Transfer from "@ + decimal(mid) + " to -1, data size "@ + decimal(size)
}

/// The label of a mapper's transfer of what no scratchpad takes.
pub fn to_memory_label(mid: usize, size: usize) -> (s: String)
    ensures
        s@ == to_memory_text(mid as int, size as int),
{
    let mut s = String::from_str("Transfer from ");
    push_decimal(&mut s, mid as u128);
    s.append(" to -1, data size ");
    push_decimal(&mut s, size as u128);
    s
}

pub open spec fn calc_local_text(rid: int, size: int) -> Seq<char> {
    "Reducer "@ + decimal(rid) + " calc local of size "@ + decimal(size)
}

/// The label of a reducer's accumulation of what its own scratchpad got.
pub fn calc_local_label(rid: usize, size: usize) -> (s: String)
    ensures
        s@ == calc_local_text(rid as int, size as int),
{
    let mut s = String::from_str("Reducer ");
    push_decimal(&mut s, rid as u128);
    s.append(" calc local of size ");
    push_decimal(&mut s, size as u128);
    s
}

pub open spec fn fetch_text(rid: int, src: int, size: int) -> Seq<char> {
    "Reducer "@ + decimal(rid) + " fetch from "@ + decimal(src) + " of size "@ + decimal(size)
}

/// The label of a reducer's fetch from scratchpad that it holds on `src`.
pub fn fetch_label(rid: usize, src: usize, size: usize) -> (s: String)
    ensures
        s@ == fetch_text(rid as int, src as int, size as int),
{
    let mut s = String::from_str("Reducer ");
    push_decimal(&mut s, rid as u128);
    s.append(" fetch from ");
    push_decimal(&mut s, src as u128);
    s.append(" of size ");
    push_decimal(&mut s, size as u128);
    s
}

pub open spec fn calc_text(rid: int, size: int) -> Seq<char> {
    "Reducer "@ + decimal(rid) + " calc size "@ + decimal(size)
}

/// The label of a reducer's accumulation of what it fetched.
pub fn calc_label(rid: usize, size: usize) -> (s: String)
    ensures
        s@ == calc_text(rid as int, size as int),
{
    let mut s = String::from_str("Reducer ");
    push_decimal(&mut s, rid as u128);
    s.append(" calc size ");
    push_decimal(&mut s, size as u128);
    s
}

pub open spec fn fetch_memory_text(rid: int, size: int) -> Seq<char> {
    "Reducer "@ + decimal(rid) + " fetch from memory of size "@ + decimal(size)
}

/// The label of a reducer's fetch of what went to main memory.
pub fn fetch_memory_label(rid: usize, size: usize) -> (s: String)
    ensures
        s@ == fetch_memory_text(rid as int, size as int),
{
    let mut s = String::from_str("Reducer ");
    push_decimal(&mut s, rid as u128);
    s.append(" fetch from memory of size ");
    push_decimal(&mut s, size as u128);
    s
}

pub open spec fn output_text(rid: int, size: int) -> Seq<char> {
    "Reducer "@ + decimal(rid) + " output of size "@ + decimal(size)
}

/// The label of a reducer's write of its finished tile.
pub fn output_label(rid: usize, size: usize) -> (s: String)
    ensures
        s@ == output_text(rid as int, size as int),
{
    let mut s = String::from_str("Reducer ");
    push_decimal(&mut s, rid as u128);
    s.append(" output of size ");
    push_decimal(&mut s, size as u128);
    s
}

} // verus!
