//! The fixed byte strings of the protocol: command names, options, replies
//! and error messages, each as a spec value and as a function that builds it.
use vstd::prelude::*;

verus! {

/// `ping`
pub open spec fn ping_spec() -> Seq<u8> {
    seq![112u8, 105u8, 110u8, 103u8]
}

pub fn ping() -> (r: Vec<u8>)
    ensures
        r@ == ping_spec(),
{
    let r: Vec<u8> = vec![112u8, 105u8, 110u8, 103u8];
    assert(r@ =~= ping_spec());
    r
}

/// `echo`
pub open spec fn echo_spec() -> Seq<u8> {
    seq![101u8, 99u8, 104u8, 111u8]
}

pub fn echo() -> (r: Vec<u8>)
    ensures
        r@ == echo_spec(),
{
    let r: Vec<u8> = vec![101u8, 99u8, 104u8, 111u8];
    assert(r@ =~= echo_spec());
    r
}

/// `set`
pub open spec fn set_spec() -> Seq<u8> {
    seq![115u8, 101u8, 116u8]
}

pub fn set() -> (r: Vec<u8>)
    ensures
        r@ == set_spec(),
{
    let r: Vec<u8> = vec![115u8, 101u8, 116u8];
    assert(r@ =~= set_spec());
    r
}

/// `get`
pub open spec fn get_spec() -> Seq<u8> {
    seq![103u8, 101u8, 116u8]
}

pub fn get() -> (r: Vec<u8>)
    ensures
        r@ == get_spec(),
{
    let r: Vec<u8> = vec![103u8, 101u8, 116u8];
    assert(r@ =~= get_spec());
    r
}

/// `del`
pub open spec fn del_spec() -> Seq<u8> {
    seq![100u8, 101u8, 108u8]
}

pub fn del() -> (r: Vec<u8>)
    ensures
        r@ == del_spec(),
{
    let r: Vec<u8> = vec![100u8, 101u8, 108u8];
    assert(r@ =~= del_spec());
    r
}

/// `type`
pub open spec fn type_cmd_spec() -> Seq<u8> {
    seq![116u8, 121u8, 112u8, 101u8]
}

pub fn type_cmd() -> (r: Vec<u8>)
    ensures
        r@ == type_cmd_spec(),
{
    let r: Vec<u8> = vec![116u8, 121u8, 112u8, 101u8];
    assert(r@ =~= type_cmd_spec());
    r
}

/// `keys`
pub open spec fn keys_spec() -> Seq<u8> {
    seq![107u8, 101u8, 121u8, 115u8]
}

pub fn keys() -> (r: Vec<u8>)
    ensures
        r@ == keys_spec(),
{
    let r: Vec<u8> = vec![107u8, 101u8, 121u8, 115u8];
    assert(r@ =~= keys_spec());
    r
}

/// `info`
pub open spec fn info_spec() -> Seq<u8> {
    seq![105u8, 110u8, 102u8, 111u8]
}

pub fn info() -> (r: Vec<u8>)
    ensures
        r@ == info_spec(),
{
    let r: Vec<u8> = vec![105u8, 110u8, 102u8, 111u8];
    assert(r@ =~= info_spec());
    r
}

/// `config`
pub open spec fn config_spec() -> Seq<u8> {
    seq![99u8, 111u8, 110u8, 102u8, 105u8, 103u8]
}

pub fn config() -> (r: Vec<u8>)
    ensures
        r@ == config_spec(),
{
    let r: Vec<u8> = vec![99u8, 111u8, 110u8, 102u8, 105u8, 103u8];
    assert(r@ =~= config_spec());
    r
}

/// `replconf`
pub open spec fn replconf_spec() -> Seq<u8> {
    seq![114u8, 101u8, 112u8, 108u8, 99u8, 111u8, 110u8, 102u8]
}

pub fn replconf() -> (r: Vec<u8>)
    ensures
        r@ == replconf_spec(),
{
    let r: Vec<u8> = vec![114u8, 101u8, 112u8, 108u8, 99u8, 111u8, 110u8, 102u8];
    assert(r@ =~= replconf_spec());
    r
}

/// `psync`
pub open spec fn psync_spec() -> Seq<u8> {
    seq![112u8, 115u8, 121u8, 110u8, 99u8]
}

pub fn psync() -> (r: Vec<u8>)
    ensures
        r@ == psync_spec(),
{
    let r: Vec<u8> = vec![112u8, 115u8, 121u8, 110u8, 99u8];
    assert(r@ =~= psync_spec());
    r
}

/// `wait`
pub open spec fn wait_spec() -> Seq<u8> {
    seq![119u8, 97u8, 105u8, 116u8]
}

pub fn wait() -> (r: Vec<u8>)
    ensures
        r@ == wait_spec(),
{
    let r: Vec<u8> = vec![119u8, 97u8, 105u8, 116u8];
    assert(r@ =~= wait_spec());
    r
}

/// `xadd`
pub open spec fn xadd_spec() -> Seq<u8> {
    seq![120u8, 97u8, 100u8, 100u8]
}

pub fn xadd() -> (r: Vec<u8>)
    ensures
        r@ == xadd_spec(),
{
    let r: Vec<u8> = vec![120u8, 97u8, 100u8, 100u8];
    assert(r@ =~= xadd_spec());
    r
}

/// `xrange`
pub open spec fn xrange_spec() -> Seq<u8> {
    seq![120u8, 114u8, 97u8, 110u8, 103u8, 101u8]
}

pub fn xrange() -> (r: Vec<u8>)
    ensures
        r@ == xrange_spec(),
{
    let r: Vec<u8> = vec![120u8, 114u8, 97u8, 110u8, 103u8, 101u8];
    assert(r@ =~= xrange_spec());
    r
}

/// `xread`
pub open spec fn xread_spec() -> Seq<u8> {
    seq![120u8, 114u8, 101u8, 97u8, 100u8]
}

pub fn xread() -> (r: Vec<u8>)
    ensures
        r@ == xread_spec(),
{
    let r: Vec<u8> = vec![120u8, 114u8, 101u8, 97u8, 100u8];
    assert(r@ =~= xread_spec());
    r
}

/// `px`
pub open spec fn px_spec() -> Seq<u8> {
    seq![112u8, 120u8]
}

pub fn px() -> (r: Vec<u8>)
    ensures
        r@ == px_spec(),
{
    let r: Vec<u8> = vec![112u8, 120u8];
    assert(r@ =~= px_spec());
    r
}

/// `streams`
pub open spec fn streams_spec() -> Seq<u8> {
    seq![115u8, 116u8, 114u8, 101u8, 97u8, 109u8, 115u8]
}

pub fn streams() -> (r: Vec<u8>)
    ensures
        r@ == streams_spec(),
{
    let r: Vec<u8> = vec![115u8, 116u8, 114u8, 101u8, 97u8, 109u8, 115u8];
    assert(r@ =~= streams_spec());
    r
}

/// `block`
pub open spec fn block_spec() -> Seq<u8> {
    seq![98u8, 108u8, 111u8, 99u8, 107u8]
}

pub fn block() -> (r: Vec<u8>)
    ensures
        r@ == block_spec(),
{
    let r: Vec<u8> = vec![98u8, 108u8, 111u8, 99u8, 107u8];
    assert(r@ =~= block_spec());
    r
}

/// `replication`
pub open spec fn replication_spec() -> Seq<u8> {
    seq![114u8, 101u8, 112u8, 108u8, 105u8, 99u8, 97u8, 116u8, 105u8, 111u8, 110u8]
}

pub fn replication() -> (r: Vec<u8>)
    ensures
        r@ == replication_spec(),
{
    let r: Vec<u8> = vec![114u8, 101u8, 112u8, 108u8, 105u8, 99u8, 97u8, 116u8, 105u8, 111u8, 110u8];
    assert(r@ =~= replication_spec());
    r
}

/// `dir`
pub open spec fn dir_spec() -> Seq<u8> {
    seq![100u8, 105u8, 114u8]
}

pub fn dir() -> (r: Vec<u8>)
    ensures
        r@ == dir_spec(),
{
    let r: Vec<u8> = vec![100u8, 105u8, 114u8];
    assert(r@ =~= dir_spec());
    r
}

/// `dbfilename`
pub open spec fn dbfilename_spec() -> Seq<u8> {
    seq![100u8, 98u8, 102u8, 105u8, 108u8, 101u8, 110u8, 97u8, 109u8, 101u8]
}

pub fn dbfilename() -> (r: Vec<u8>)
    ensures
        r@ == dbfilename_spec(),
{
    let r: Vec<u8> = vec![100u8, 98u8, 102u8, 105u8, 108u8, 101u8, 110u8, 97u8, 109u8, 101u8];
    assert(r@ =~= dbfilename_spec());
    r
}

/// `listening-port`
pub open spec fn listening_port_spec() -> Seq<u8> {
    seq![108u8, 105u8, 115u8, 116u8, 101u8, 110u8, 105u8, 110u8, 103u8, 45u8, 112u8, 111u8, 114u8, 116u8]
}

pub fn listening_port() -> (r: Vec<u8>)
    ensures
        r@ == listening_port_spec(),
{
    let r: Vec<u8> = vec![108u8, 105u8, 115u8, 116u8, 101u8, 110u8, 105u8, 110u8, 103u8, 45u8, 112u8, 111u8, 114u8, 116u8];
    assert(r@ =~= listening_port_spec());
    r
}

/// `capa`
pub open spec fn capa_spec() -> Seq<u8> {
    seq![99u8, 97u8, 112u8, 97u8]
}

pub fn capa() -> (r: Vec<u8>)
    ensures
        r@ == capa_spec(),
{
    let r: Vec<u8> = vec![99u8, 97u8, 112u8, 97u8];
    assert(r@ =~= capa_spec());
    r
}

/// `getack`
pub open spec fn getack_spec() -> Seq<u8> {
    seq![103u8, 101u8, 116u8, 97u8, 99u8, 107u8]
}

pub fn getack() -> (r: Vec<u8>)
    ensures
        r@ == getack_spec(),
{
    let r: Vec<u8> = vec![103u8, 101u8, 116u8, 97u8, 99u8, 107u8];
    assert(r@ =~= getack_spec());
    r
}

/// `ack`
pub open spec fn ack_spec() -> Seq<u8> {
    seq![97u8, 99u8, 107u8]
}

pub fn ack() -> (r: Vec<u8>)
    ensures
        r@ == ack_spec(),
{
    let r: Vec<u8> = vec![97u8, 99u8, 107u8];
    assert(r@ =~= ack_spec());
    r
}

/// `fullresync`
pub open spec fn fullresync_spec() -> Seq<u8> {
    seq![102u8, 117u8, 108u8, 108u8, 114u8, 101u8, 115u8, 121u8, 110u8, 99u8]
}

pub fn fullresync() -> (r: Vec<u8>)
    ensures
        r@ == fullresync_spec(),
{
    let r: Vec<u8> = vec![102u8, 117u8, 108u8, 108u8, 114u8, 101u8, 115u8, 121u8, 110u8, 99u8];
    assert(r@ =~= fullresync_spec());
    r
}

/// `ok`
pub open spec fn ok_spec() -> Seq<u8> {
    seq![111u8, 107u8]
}

pub fn ok() -> (r: Vec<u8>)
    ensures
        r@ == ok_spec(),
{
    let r: Vec<u8> = vec![111u8, 107u8];
    assert(r@ =~= ok_spec());
    r
}

/// `pong`
pub open spec fn pong_spec() -> Seq<u8> {
    seq![112u8, 111u8, 110u8, 103u8]
}

pub fn pong() -> (r: Vec<u8>)
    ensures
        r@ == pong_spec(),
{
    let r: Vec<u8> = vec![112u8, 111u8, 110u8, 103u8];
    assert(r@ =~= pong_spec());
    r
}

/// `PONG`
pub open spec fn reply_pong_spec() -> Seq<u8> {
    seq![80u8, 79u8, 78u8, 71u8]
}

pub fn reply_pong() -> (r: Vec<u8>)
    ensures
        r@ == reply_pong_spec(),
{
    let r: Vec<u8> = vec![80u8, 79u8, 78u8, 71u8];
    assert(r@ =~= reply_pong_spec());
    r
}

/// `OK`
pub open spec fn reply_ok_spec() -> Seq<u8> {
    seq![79u8, 75u8]
}

pub fn reply_ok() -> (r: Vec<u8>)
    ensures
        r@ == reply_ok_spec(),
{
    let r: Vec<u8> = vec![79u8, 75u8];
    assert(r@ =~= reply_ok_spec());
    r
}

/// `string`
pub open spec fn string_spec() -> Seq<u8> {
    seq![115u8, 116u8, 114u8, 105u8, 110u8, 103u8]
}

pub fn string() -> (r: Vec<u8>)
    ensures
        r@ == string_spec(),
{
    let r: Vec<u8> = vec![115u8, 116u8, 114u8, 105u8, 110u8, 103u8];
    assert(r@ =~= string_spec());
    r
}

/// `stream`
pub open spec fn stream_spec() -> Seq<u8> {
    seq![115u8, 116u8, 114u8, 101u8, 97u8, 109u8]
}

pub fn stream() -> (r: Vec<u8>)
    ensures
        r@ == stream_spec(),
{
    let r: Vec<u8> = vec![115u8, 116u8, 114u8, 101u8, 97u8, 109u8];
    assert(r@ =~= stream_spec());
    r
}

/// `none`
pub open spec fn none_spec() -> Seq<u8> {
    seq![110u8, 111u8, 110u8, 101u8]
}

pub fn none() -> (r: Vec<u8>)
    ensures
        r@ == none_spec(),
{
    let r: Vec<u8> = vec![110u8, 111u8, 110u8, 101u8];
    assert(r@ =~= none_spec());
    r
}

/// `REPLCONF`
pub open spec fn cmd_replconf_spec() -> Seq<u8> {
    seq![82u8, 69u8, 80u8, 76u8, 67u8, 79u8, 78u8, 70u8]
}

pub fn cmd_replconf() -> (r: Vec<u8>)
    ensures
        r@ == cmd_replconf_spec(),
{
    let r: Vec<u8> = vec![82u8, 69u8, 80u8, 76u8, 67u8, 79u8, 78u8, 70u8];
    assert(r@ =~= cmd_replconf_spec());
    r
}

/// `GETACK`
pub open spec fn cmd_getack_spec() -> Seq<u8> {
    seq![71u8, 69u8, 84u8, 65u8, 67u8, 75u8]
}

pub fn cmd_getack() -> (r: Vec<u8>)
    ensures
        r@ == cmd_getack_spec(),
{
    let r: Vec<u8> = vec![71u8, 69u8, 84u8, 65u8, 67u8, 75u8];
    assert(r@ =~= cmd_getack_spec());
    r
}

/// `ACK`
pub open spec fn cmd_ack_spec() -> Seq<u8> {
    seq![65u8, 67u8, 75u8]
}

pub fn cmd_ack() -> (r: Vec<u8>)
    ensures
        r@ == cmd_ack_spec(),
{
    let r: Vec<u8> = vec![65u8, 67u8, 75u8];
    assert(r@ =~= cmd_ack_spec());
    r
}

/// `PSYNC`
pub open spec fn cmd_psync_spec() -> Seq<u8> {
    seq![80u8, 83u8, 89u8, 78u8, 67u8]
}

pub fn cmd_psync() -> (r: Vec<u8>)
    ensures
        r@ == cmd_psync_spec(),
{
    let r: Vec<u8> = vec![80u8, 83u8, 89u8, 78u8, 67u8];
    assert(r@ =~= cmd_psync_spec());
    r
}

/// `PING`
pub open spec fn cmd_ping_spec() -> Seq<u8> {
    seq![80u8, 73u8, 78u8, 71u8]
}

pub fn cmd_ping() -> (r: Vec<u8>)
    ensures
        r@ == cmd_ping_spec(),
{
    let r: Vec<u8> = vec![80u8, 73u8, 78u8, 71u8];
    assert(r@ =~= cmd_ping_spec());
    r
}

/// `*`
pub open spec fn star_spec() -> Seq<u8> {
    seq![42u8]
}

pub fn star() -> (r: Vec<u8>)
    ensures
        r@ == star_spec(),
{
    let r: Vec<u8> = vec![42u8];
    assert(r@ =~= star_spec());
    r
}

/// `-`
pub open spec fn dash_spec() -> Seq<u8> {
    seq![45u8]
}

pub fn dash() -> (r: Vec<u8>)
    ensures
        r@ == dash_spec(),
{
    let r: Vec<u8> = vec![45u8];
    assert(r@ =~= dash_spec());
    r
}

/// `+`
pub open spec fn plus_spec() -> Seq<u8> {
    seq![43u8]
}

pub fn plus() -> (r: Vec<u8>)
    ensures
        r@ == plus_spec(),
{
    let r: Vec<u8> = vec![43u8];
    assert(r@ =~= plus_spec());
    r
}

/// `?`
pub open spec fn question_spec() -> Seq<u8> {
    seq![63u8]
}

pub fn question() -> (r: Vec<u8>)
    ensures
        r@ == question_spec(),
{
    let r: Vec<u8> = vec![63u8];
    assert(r@ =~= question_spec());
    r
}

/// `-1`
pub open spec fn minus_one_spec() -> Seq<u8> {
    seq![45u8, 49u8]
}

pub fn minus_one() -> (r: Vec<u8>)
    ensures
        r@ == minus_one_spec(),
{
    let r: Vec<u8> = vec![45u8, 49u8];
    assert(r@ =~= minus_one_spec());
    r
}

/// `psync2`
pub open spec fn psync2_spec() -> Seq<u8> {
    seq![112u8, 115u8, 121u8, 110u8, 99u8, 50u8]
}

pub fn psync2() -> (r: Vec<u8>)
    ensures
        r@ == psync2_spec(),
{
    let r: Vec<u8> = vec![112u8, 115u8, 121u8, 110u8, 99u8, 50u8];
    assert(r@ =~= psync2_spec());
    r
}

/// `FULLRESYNC 75cd7bc10c49047e0d163660f3b90625b1af31dc 0`
pub open spec fn full_resync_line_spec() -> Seq<u8> {
    seq![70u8, 85u8, 76u8, 76u8, 82u8, 69u8, 83u8, 89u8, 78u8, 67u8, 32u8, 55u8, 53u8, 99u8, 100u8, 55u8, 98u8, 99u8, 49u8, 48u8, 99u8, 52u8, 57u8, 48u8, 52u8, 55u8, 101u8, 48u8, 100u8, 49u8, 54u8, 51u8, 54u8, 54u8, 48u8, 102u8, 51u8, 98u8, 57u8, 48u8, 54u8, 50u8, 53u8, 98u8, 49u8, 97u8, 102u8, 51u8, 49u8, 100u8, 99u8, 32u8, 48u8]
}

pub fn full_resync_line() -> (r: Vec<u8>)
    ensures
        r@ == full_resync_line_spec(),
{
    let r: Vec<u8> = vec![70u8, 85u8, 76u8, 76u8, 82u8, 69u8, 83u8, 89u8, 78u8, 67u8, 32u8, 55u8, 53u8, 99u8, 100u8, 55u8, 98u8, 99u8, 49u8, 48u8, 99u8, 52u8, 57u8, 48u8, 52u8, 55u8, 101u8, 48u8, 100u8, 49u8, 54u8, 51u8, 54u8, 54u8, 48u8, 102u8, 51u8, 98u8, 57u8, 48u8, 54u8, 50u8, 53u8, 98u8, 49u8, 97u8, 102u8, 51u8, 49u8, 100u8, 99u8, 32u8, 48u8];
    assert(r@ =~= full_resync_line_spec());
    r
}

/// `role:master\r\nmaster_replid:8371b4fb1155b71f4a04d3e1bc3e18c4a990aeeb\r\nmaster_repl_offset:0`
pub open spec fn role_master_spec() -> Seq<u8> {
    seq![114u8, 111u8, 108u8, 101u8, 58u8, 109u8, 97u8, 115u8, 116u8, 101u8, 114u8, 13u8, 10u8, 109u8, 97u8, 115u8, 116u8, 101u8, 114u8, 95u8, 114u8, 101u8, 112u8, 108u8, 105u8, 100u8, 58u8, 56u8, 51u8, 55u8, 49u8, 98u8, 52u8, 102u8, 98u8, 49u8, 49u8, 53u8, 53u8, 98u8, 55u8, 49u8, 102u8, 52u8, 97u8, 48u8, 52u8, 100u8, 51u8, 101u8, 49u8, 98u8, 99u8, 51u8, 101u8, 49u8, 56u8, 99u8, 52u8, 97u8, 57u8, 57u8, 48u8, 97u8, 101u8, 101u8, 98u8, 13u8, 10u8, 109u8, 97u8, 115u8, 116u8, 101u8, 114u8, 95u8, 114u8, 101u8, 112u8, 108u8, 95u8, 111u8, 102u8, 102u8, 115u8, 101u8, 116u8, 58u8, 48u8]
}

pub fn role_master() -> (r: Vec<u8>)
    ensures
        r@ == role_master_spec(),
{
    let r: Vec<u8> = vec![114u8, 111u8, 108u8, 101u8, 58u8, 109u8, 97u8, 115u8, 116u8, 101u8, 114u8, 13u8, 10u8, 109u8, 97u8, 115u8, 116u8, 101u8, 114u8, 95u8, 114u8, 101u8, 112u8, 108u8, 105u8, 100u8, 58u8, 56u8, 51u8, 55u8, 49u8, 98u8, 52u8, 102u8, 98u8, 49u8, 49u8, 53u8, 53u8, 98u8, 55u8, 49u8, 102u8, 52u8, 97u8, 48u8, 52u8, 100u8, 51u8, 101u8, 49u8, 98u8, 99u8, 51u8, 101u8, 49u8, 56u8, 99u8, 52u8, 97u8, 57u8, 57u8, 48u8, 97u8, 101u8, 101u8, 98u8, 13u8, 10u8, 109u8, 97u8, 115u8, 116u8, 101u8, 114u8, 95u8, 114u8, 101u8, 112u8, 108u8, 95u8, 111u8, 102u8, 102u8, 115u8, 101u8, 116u8, 58u8, 48u8];
    assert(r@ =~= role_master_spec());
    r
}

/// `role:slave`
pub open spec fn role_slave_spec() -> Seq<u8> {
    seq![114u8, 111u8, 108u8, 101u8, 58u8, 115u8, 108u8, 97u8, 118u8, 101u8]
}

pub fn role_slave() -> (r: Vec<u8>)
    ensures
        r@ == role_slave_spec(),
{
    let r: Vec<u8> = vec![114u8, 111u8, 108u8, 101u8, 58u8, 115u8, 108u8, 97u8, 118u8, 101u8];
    assert(r@ =~= role_slave_spec());
    r
}

/// `ERR The ID specified in XADD must be greater than 0-0`
pub open spec fn err_zero_id_spec() -> Seq<u8> {
    seq![69u8, 82u8, 82u8, 32u8, 84u8, 104u8, 101u8, 32u8, 73u8, 68u8, 32u8, 115u8, 112u8, 101u8, 99u8, 105u8, 102u8, 105u8, 101u8, 100u8, 32u8, 105u8, 110u8, 32u8, 88u8, 65u8, 68u8, 68u8, 32u8, 109u8, 117u8, 115u8, 116u8, 32u8, 98u8, 101u8, 32u8, 103u8, 114u8, 101u8, 97u8, 116u8, 101u8, 114u8, 32u8, 116u8, 104u8, 97u8, 110u8, 32u8, 48u8, 45u8, 48u8]
}

pub fn err_zero_id() -> (r: Vec<u8>)
    ensures
        r@ == err_zero_id_spec(),
{
    let r: Vec<u8> = vec![69u8, 82u8, 82u8, 32u8, 84u8, 104u8, 101u8, 32u8, 73u8, 68u8, 32u8, 115u8, 112u8, 101u8, 99u8, 105u8, 102u8, 105u8, 101u8, 100u8, 32u8, 105u8, 110u8, 32u8, 88u8, 65u8, 68u8, 68u8, 32u8, 109u8, 117u8, 115u8, 116u8, 32u8, 98u8, 101u8, 32u8, 103u8, 114u8, 101u8, 97u8, 116u8, 101u8, 114u8, 32u8, 116u8, 104u8, 97u8, 110u8, 32u8, 48u8, 45u8, 48u8];
    assert(r@ =~= err_zero_id_spec());
    r
}

/// `ERR The ID specified in XADD is equal or smaller than the target stream top item`
pub open spec fn err_not_greater_spec() -> Seq<u8> {
    seq![69u8, 82u8, 82u8, 32u8, 84u8, 104u8, 101u8, 32u8, 73u8, 68u8, 32u8, 115u8, 112u8, 101u8, 99u8, 105u8, 102u8, 105u8, 101u8, 100u8, 32u8, 105u8, 110u8, 32u8, 88u8, 65u8, 68u8, 68u8, 32u8, 105u8, 115u8, 32u8, 101u8, 113u8, 117u8, 97u8, 108u8, 32u8, 111u8, 114u8, 32u8, 115u8, 109u8, 97u8, 108u8, 108u8, 101u8, 114u8, 32u8, 116u8, 104u8, 97u8, 110u8, 32u8, 116u8, 104u8, 101u8, 32u8, 116u8, 97u8, 114u8, 103u8, 101u8, 116u8, 32u8, 115u8, 116u8, 114u8, 101u8, 97u8, 109u8, 32u8, 116u8, 111u8, 112u8, 32u8, 105u8, 116u8, 101u8, 109u8]
}

pub fn err_not_greater() -> (r: Vec<u8>)
    ensures
        r@ == err_not_greater_spec(),
{
    let r: Vec<u8> = vec![69u8, 82u8, 82u8, 32u8, 84u8, 104u8, 101u8, 32u8, 73u8, 68u8, 32u8, 115u8, 112u8, 101u8, 99u8, 105u8, 102u8, 105u8, 101u8, 100u8, 32u8, 105u8, 110u8, 32u8, 88u8, 65u8, 68u8, 68u8, 32u8, 105u8, 115u8, 32u8, 101u8, 113u8, 117u8, 97u8, 108u8, 32u8, 111u8, 114u8, 32u8, 115u8, 109u8, 97u8, 108u8, 108u8, 101u8, 114u8, 32u8, 116u8, 104u8, 97u8, 110u8, 32u8, 116u8, 104u8, 101u8, 32u8, 116u8, 97u8, 114u8, 103u8, 101u8, 116u8, 32u8, 115u8, 116u8, 114u8, 101u8, 97u8, 109u8, 32u8, 116u8, 111u8, 112u8, 32u8, 105u8, 116u8, 101u8, 109u8];
    assert(r@ =~= err_not_greater_spec());
    r
}

/// `WRONGTYPE Operation against a key holding the wrong kind of value`
pub open spec fn err_wrong_type_spec() -> Seq<u8> {
    seq![87u8, 82u8, 79u8, 78u8, 71u8, 84u8, 89u8, 80u8, 69u8, 32u8, 79u8, 112u8, 101u8, 114u8, 97u8, 116u8, 105u8, 111u8, 110u8, 32u8, 97u8, 103u8, 97u8, 105u8, 110u8, 115u8, 116u8, 32u8, 97u8, 32u8, 107u8, 101u8, 121u8, 32u8, 104u8, 111u8, 108u8, 100u8, 105u8, 110u8, 103u8, 32u8, 116u8, 104u8, 101u8, 32u8, 119u8, 114u8, 111u8, 110u8, 103u8, 32u8, 107u8, 105u8, 110u8, 100u8, 32u8, 111u8, 102u8, 32u8, 118u8, 97u8, 108u8, 117u8, 101u8]
}

pub fn err_wrong_type() -> (r: Vec<u8>)
    ensures
        r@ == err_wrong_type_spec(),
{
    let r: Vec<u8> = vec![87u8, 82u8, 79u8, 78u8, 71u8, 84u8, 89u8, 80u8, 69u8, 32u8, 79u8, 112u8, 101u8, 114u8, 97u8, 116u8, 105u8, 111u8, 110u8, 32u8, 97u8, 103u8, 97u8, 105u8, 110u8, 115u8, 116u8, 32u8, 97u8, 32u8, 107u8, 101u8, 121u8, 32u8, 104u8, 111u8, 108u8, 100u8, 105u8, 110u8, 103u8, 32u8, 116u8, 104u8, 101u8, 32u8, 119u8, 114u8, 111u8, 110u8, 103u8, 32u8, 107u8, 105u8, 110u8, 100u8, 32u8, 111u8, 102u8, 32u8, 118u8, 97u8, 108u8, 117u8, 101u8];
    assert(r@ =~= err_wrong_type_spec());
    r
}

/// `ERR unknown command`
pub open spec fn err_unknown_spec() -> Seq<u8> {
    seq![69u8, 82u8, 82u8, 32u8, 117u8, 110u8, 107u8, 110u8, 111u8, 119u8, 110u8, 32u8, 99u8, 111u8, 109u8, 109u8, 97u8, 110u8, 100u8]
}

pub fn err_unknown() -> (r: Vec<u8>)
    ensures
        r@ == err_unknown_spec(),
{
    let r: Vec<u8> = vec![69u8, 82u8, 82u8, 32u8, 117u8, 110u8, 107u8, 110u8, 111u8, 119u8, 110u8, 32u8, 99u8, 111u8, 109u8, 109u8, 97u8, 110u8, 100u8];
    assert(r@ =~= err_unknown_spec());
    r
}

/// `ERR wrong number of arguments for command`
pub open spec fn err_arity_spec() -> Seq<u8> {
    seq![69u8, 82u8, 82u8, 32u8, 119u8, 114u8, 111u8, 110u8, 103u8, 32u8, 110u8, 117u8, 109u8, 98u8, 101u8, 114u8, 32u8, 111u8, 102u8, 32u8, 97u8, 114u8, 103u8, 117u8, 109u8, 101u8, 110u8, 116u8, 115u8, 32u8, 102u8, 111u8, 114u8, 32u8, 99u8, 111u8, 109u8, 109u8, 97u8, 110u8, 100u8]
}

pub fn err_arity() -> (r: Vec<u8>)
    ensures
        r@ == err_arity_spec(),
{
    let r: Vec<u8> = vec![69u8, 82u8, 82u8, 32u8, 119u8, 114u8, 111u8, 110u8, 103u8, 32u8, 110u8, 117u8, 109u8, 98u8, 101u8, 114u8, 32u8, 111u8, 102u8, 32u8, 97u8, 114u8, 103u8, 117u8, 109u8, 101u8, 110u8, 116u8, 115u8, 32u8, 102u8, 111u8, 114u8, 32u8, 99u8, 111u8, 109u8, 109u8, 97u8, 110u8, 100u8];
    assert(r@ =~= err_arity_spec());
    r
}

/// `ERR value is not an integer or out of range`
pub open spec fn err_not_integer_spec() -> Seq<u8> {
    seq![69u8, 82u8, 82u8, 32u8, 118u8, 97u8, 108u8, 117u8, 101u8, 32u8, 105u8, 115u8, 32u8, 110u8, 111u8, 116u8, 32u8, 97u8, 110u8, 32u8, 105u8, 110u8, 116u8, 101u8, 103u8, 101u8, 114u8, 32u8, 111u8, 114u8, 32u8, 111u8, 117u8, 116u8, 32u8, 111u8, 102u8, 32u8, 114u8, 97u8, 110u8, 103u8, 101u8]
}

pub fn err_not_integer() -> (r: Vec<u8>)
    ensures
        r@ == err_not_integer_spec(),
{
    let r: Vec<u8> = vec![69u8, 82u8, 82u8, 32u8, 118u8, 97u8, 108u8, 117u8, 101u8, 32u8, 105u8, 115u8, 32u8, 110u8, 111u8, 116u8, 32u8, 97u8, 110u8, 32u8, 105u8, 110u8, 116u8, 101u8, 103u8, 101u8, 114u8, 32u8, 111u8, 114u8, 32u8, 111u8, 117u8, 116u8, 32u8, 111u8, 102u8, 32u8, 114u8, 97u8, 110u8, 103u8, 101u8];
    assert(r@ =~= err_not_integer_spec());
    r
}

/// `ERR syntax error`
pub open spec fn err_syntax_spec() -> Seq<u8> {
    seq![69u8, 82u8, 82u8, 32u8, 115u8, 121u8, 110u8, 116u8, 97u8, 120u8, 32u8, 101u8, 114u8, 114u8, 111u8, 114u8]
}

pub fn err_syntax() -> (r: Vec<u8>)
    ensures
        r@ == err_syntax_spec(),
{
    let r: Vec<u8> = vec![69u8, 82u8, 82u8, 32u8, 115u8, 121u8, 110u8, 116u8, 97u8, 120u8, 32u8, 101u8, 114u8, 114u8, 111u8, 114u8];
    assert(r@ =~= err_syntax_spec());
    r
}

/// `ERR Invalid stream ID specified as stream command argument`
pub open spec fn err_stream_id_spec() -> Seq<u8> {
    seq![69u8, 82u8, 82u8, 32u8, 73u8, 110u8, 118u8, 97u8, 108u8, 105u8, 100u8, 32u8, 115u8, 116u8, 114u8, 101u8, 97u8, 109u8, 32u8, 73u8, 68u8, 32u8, 115u8, 112u8, 101u8, 99u8, 105u8, 102u8, 105u8, 101u8, 100u8, 32u8, 97u8, 115u8, 32u8, 115u8, 116u8, 114u8, 101u8, 97u8, 109u8, 32u8, 99u8, 111u8, 109u8, 109u8, 97u8, 110u8, 100u8, 32u8, 97u8, 114u8, 103u8, 117u8, 109u8, 101u8, 110u8, 116u8]
}

pub fn err_stream_id() -> (r: Vec<u8>)
    ensures
        r@ == err_stream_id_spec(),
{
    let r: Vec<u8> = vec![69u8, 82u8, 82u8, 32u8, 73u8, 110u8, 118u8, 97u8, 108u8, 105u8, 100u8, 32u8, 115u8, 116u8, 114u8, 101u8, 97u8, 109u8, 32u8, 73u8, 68u8, 32u8, 115u8, 112u8, 101u8, 99u8, 105u8, 102u8, 105u8, 101u8, 100u8, 32u8, 97u8, 115u8, 32u8, 115u8, 116u8, 114u8, 101u8, 97u8, 109u8, 32u8, 99u8, 111u8, 109u8, 109u8, 97u8, 110u8, 100u8, 32u8, 97u8, 114u8, 103u8, 117u8, 109u8, 101u8, 110u8, 116u8];
    assert(r@ =~= err_stream_id_spec());
    r
}

/// `invalid command index`
pub open spec fn invalid_index_spec() -> Seq<u8> {
    seq![105u8, 110u8, 118u8, 97u8, 108u8, 105u8, 100u8, 32u8, 99u8, 111u8, 109u8, 109u8, 97u8, 110u8, 100u8, 32u8, 105u8, 110u8, 100u8, 101u8, 120u8]
}

pub fn invalid_index() -> (r: Vec<u8>)
    ensures
        r@ == invalid_index_spec(),
{
    let r: Vec<u8> = vec![105u8, 110u8, 118u8, 97u8, 108u8, 105u8, 100u8, 32u8, 99u8, 111u8, 109u8, 109u8, 97u8, 110u8, 100u8, 32u8, 105u8, 110u8, 100u8, 101u8, 120u8];
    assert(r@ =~= invalid_index_spec());
    r
}

/// `not implemented`
pub open spec fn not_implemented_spec() -> Seq<u8> {
    seq![110u8, 111u8, 116u8, 32u8, 105u8, 109u8, 112u8, 108u8, 101u8, 109u8, 101u8, 110u8, 116u8, 101u8, 100u8]
}

pub fn not_implemented() -> (r: Vec<u8>)
    ensures
        r@ == not_implemented_spec(),
{
    let r: Vec<u8> = vec![110u8, 111u8, 116u8, 32u8, 105u8, 109u8, 112u8, 108u8, 101u8, 109u8, 101u8, 110u8, 116u8, 101u8, 100u8];
    assert(r@ =~= not_implemented_spec());
    r
}

} // verus!
