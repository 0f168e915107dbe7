use vstd::prelude::*;
use crate::bytes::bytes_eq;
verus! {
/// The global lexicon: every keyword of the sentence grammar, as bytes.

pub open spec fn kw_of() -> Seq<u8> {
    seq![0x6fu8, 0x66u8]
}

/// The keyword `of` as a vector of bytes.
pub fn kw_of_vec() -> (r: Vec<u8>)
    ensures
        r@ == kw_of(),
{
    let r: Vec<u8> = vec![0x6fu8, 0x66u8];
    proof {
        assert(r@ =~= kw_of());
    }
    r
}

/// Is `t` the keyword `of`?
pub fn tok_is_of(t: &[u8]) -> (r: bool)
    ensures
        r == (t@ == kw_of()),
{
    let kw = kw_of_vec();
    bytes_eq(t, kw.as_slice())
}

pub open spec fn kw_the() -> Seq<u8> {
    seq![0x74u8, 0x68u8, 0x65u8]
}

/// The keyword `the` as a vector of bytes.
pub fn kw_the_vec() -> (r: Vec<u8>)
    ensures
        r@ == kw_the(),
{
    let r: Vec<u8> = vec![0x74u8, 0x68u8, 0x65u8];
    proof {
        assert(r@ =~= kw_the());
    }
    r
}

/// Is `t` the keyword `the`?
pub fn tok_is_the(t: &[u8]) -> (r: bool)
    ensures
        r == (t@ == kw_the()),
{
    let kw = kw_the_vec();
    bytes_eq(t, kw.as_slice())
}

pub open spec fn kw_to() -> Seq<u8> {
    seq![0x74u8, 0x6fu8]
}

/// The keyword `to` as a vector of bytes.
pub fn kw_to_vec() -> (r: Vec<u8>)
    ensures
        r@ == kw_to(),
{
    let r: Vec<u8> = vec![0x74u8, 0x6fu8];
    proof {
        assert(r@ =~= kw_to());
    }
    r
}

/// Is `t` the keyword `to`?
pub fn tok_is_to(t: &[u8]) -> (r: bool)
    ensures
        r == (t@ == kw_to()),
{
    let kw = kw_to_vec();
    bytes_eq(t, kw.as_slice())
}

pub open spec fn kw_last() -> Seq<u8> {
    seq![0x6cu8, 0x61u8, 0x73u8, 0x74u8]
}

/// The keyword `last` as a vector of bytes.
pub fn kw_last_vec() -> (r: Vec<u8>)
    ensures
        r@ == kw_last(),
{
    let r: Vec<u8> = vec![0x6cu8, 0x61u8, 0x73u8, 0x74u8];
    proof {
        assert(r@ =~= kw_last());
    }
    r
}

/// Is `t` the keyword `last`?
pub fn tok_is_last(t: &[u8]) -> (r: bool)
    ensures
        r == (t@ == kw_last()),
{
    let kw = kw_last_vec();
    bytes_eq(t, kw.as_slice())
}

pub open spec fn kw_item() -> Seq<u8> {
    seq![0x69u8, 0x74u8, 0x65u8, 0x6du8]
}

/// The keyword `item` as a vector of bytes.
pub fn kw_item_vec() -> (r: Vec<u8>)
    ensures
        r@ == kw_item(),
{
    let r: Vec<u8> = vec![0x69u8, 0x74u8, 0x65u8, 0x6du8];
    proof {
        assert(r@ =~= kw_item());
    }
    r
}

/// Is `t` the keyword `item`?
pub fn tok_is_item(t: &[u8]) -> (r: bool)
    ensures
        r == (t@ == kw_item()),
{
    let kw = kw_item_vec();
    bytes_eq(t, kw.as_slice())
}

pub open spec fn kw_first() -> Seq<u8> {
    seq![0x66u8, 0x69u8, 0x72u8, 0x73u8, 0x74u8]
}

/// The keyword `first` as a vector of bytes.
pub fn kw_first_vec() -> (r: Vec<u8>)
    ensures
        r@ == kw_first(),
{
    let r: Vec<u8> = vec![0x66u8, 0x69u8, 0x72u8, 0x73u8, 0x74u8];
    proof {
        assert(r@ =~= kw_first());
    }
    r
}

/// Is `t` the keyword `first`?
pub fn tok_is_first(t: &[u8]) -> (r: bool)
    ensures
        r == (t@ == kw_first()),
{
    let kw = kw_first_vec();
    bytes_eq(t, kw.as_slice())
}

pub open spec fn kw_second() -> Seq<u8> {
    seq![0x73u8, 0x65u8, 0x63u8, 0x6fu8, 0x6eu8, 0x64u8]
}

/// The keyword `second` as a vector of bytes.
pub fn kw_second_vec() -> (r: Vec<u8>)
    ensures
        r@ == kw_second(),
{
    let r: Vec<u8> = vec![0x73u8, 0x65u8, 0x63u8, 0x6fu8, 0x6eu8, 0x64u8];
    proof {
        assert(r@ =~= kw_second());
    }
    r
}

/// Is `t` the keyword `second`?
pub fn tok_is_second(t: &[u8]) -> (r: bool)
    ensures
        r == (t@ == kw_second()),
{
    let kw = kw_second_vec();
    bytes_eq(t, kw.as_slice())
}

pub open spec fn kw_third() -> Seq<u8> {
    seq![0x74u8, 0x68u8, 0x69u8, 0x72u8, 0x64u8]
}

/// The keyword `third` as a vector of bytes.
pub fn kw_third_vec() -> (r: Vec<u8>)
    ensures
        r@ == kw_third(),
{
    let r: Vec<u8> = vec![0x74u8, 0x68u8, 0x69u8, 0x72u8, 0x64u8];
    proof {
        assert(r@ =~= kw_third());
    }
    r
}

/// Is `t` the keyword `third`?
pub fn tok_is_third(t: &[u8]) -> (r: bool)
    ensures
        r == (t@ == kw_third()),
{
    let kw = kw_third_vec();
    bytes_eq(t, kw.as_slice())
}

pub open spec fn kw_fourth() -> Seq<u8> {
    seq![0x66u8, 0x6fu8, 0x75u8, 0x72u8, 0x74u8, 0x68u8]
}

/// The keyword `fourth` as a vector of bytes.
pub fn kw_fourth_vec() -> (r: Vec<u8>)
    ensures
        r@ == kw_fourth(),
{
    let r: Vec<u8> = vec![0x66u8, 0x6fu8, 0x75u8, 0x72u8, 0x74u8, 0x68u8];
    proof {
        assert(r@ =~= kw_fourth());
    }
    r
}

/// Is `t` the keyword `fourth`?
pub fn tok_is_fourth(t: &[u8]) -> (r: bool)
    ensures
        r == (t@ == kw_fourth()),
{
    let kw = kw_fourth_vec();
    bytes_eq(t, kw.as_slice())
}

pub open spec fn kw_fifth() -> Seq<u8> {
    seq![0x66u8, 0x69u8, 0x66u8, 0x74u8, 0x68u8]
}

/// The keyword `fifth` as a vector of bytes.
pub fn kw_fifth_vec() -> (r: Vec<u8>)
    ensures
        r@ == kw_fifth(),
{
    let r: Vec<u8> = vec![0x66u8, 0x69u8, 0x66u8, 0x74u8, 0x68u8];
    proof {
        assert(r@ =~= kw_fifth());
    }
    r
}

/// Is `t` the keyword `fifth`?
pub fn tok_is_fifth(t: &[u8]) -> (r: bool)
    ensures
        r == (t@ == kw_fifth()),
{
    let kw = kw_fifth_vec();
    bytes_eq(t, kw.as_slice())
}

pub open spec fn kw_sixth() -> Seq<u8> {
    seq![0x73u8, 0x69u8, 0x78u8, 0x74u8, 0x68u8]
}

/// The keyword `sixth` as a vector of bytes.
pub fn kw_sixth_vec() -> (r: Vec<u8>)
    ensures
        r@ == kw_sixth(),
{
    let r: Vec<u8> = vec![0x73u8, 0x69u8, 0x78u8, 0x74u8, 0x68u8];
    proof {
        assert(r@ =~= kw_sixth());
    }
    r
}

/// Is `t` the keyword `sixth`?
pub fn tok_is_sixth(t: &[u8]) -> (r: bool)
    ensures
        r == (t@ == kw_sixth()),
{
    let kw = kw_sixth_vec();
    bytes_eq(t, kw.as_slice())
}

pub open spec fn kw_seventh() -> Seq<u8> {
    seq![0x73u8, 0x65u8, 0x76u8, 0x65u8, 0x6eu8, 0x74u8, 0x68u8]
}

/// The keyword `seventh` as a vector of bytes.
pub fn kw_seventh_vec() -> (r: Vec<u8>)
    ensures
        r@ == kw_seventh(),
{
    let r: Vec<u8> = vec![0x73u8, 0x65u8, 0x76u8, 0x65u8, 0x6eu8, 0x74u8, 0x68u8];
    proof {
        assert(r@ =~= kw_seventh());
    }
    r
}

/// Is `t` the keyword `seventh`?
pub fn tok_is_seventh(t: &[u8]) -> (r: bool)
    ensures
        r == (t@ == kw_seventh()),
{
    let kw = kw_seventh_vec();
    bytes_eq(t, kw.as_slice())
}

pub open spec fn kw_eighth() -> Seq<u8> {
    seq![0x65u8, 0x69u8, 0x67u8, 0x68u8, 0x74u8, 0x68u8]
}

/// The keyword `eighth` as a vector of bytes.
pub fn kw_eighth_vec() -> (r: Vec<u8>)
    ensures
        r@ == kw_eighth(),
{
    let r: Vec<u8> = vec![0x65u8, 0x69u8, 0x67u8, 0x68u8, 0x74u8, 0x68u8];
    proof {
        assert(r@ =~= kw_eighth());
    }
    r
}

/// Is `t` the keyword `eighth`?
pub fn tok_is_eighth(t: &[u8]) -> (r: bool)
    ensures
        r == (t@ == kw_eighth()),
{
    let kw = kw_eighth_vec();
    bytes_eq(t, kw.as_slice())
}

pub open spec fn kw_ninth() -> Seq<u8> {
    seq![0x6eu8, 0x69u8, 0x6eu8, 0x74u8, 0x68u8]
}

/// The keyword `ninth` as a vector of bytes.
pub fn kw_ninth_vec() -> (r: Vec<u8>)
    ensures
        r@ == kw_ninth(),
{
    let r: Vec<u8> = vec![0x6eu8, 0x69u8, 0x6eu8, 0x74u8, 0x68u8];
    proof {
        assert(r@ =~= kw_ninth());
    }
    r
}

/// Is `t` the keyword `ninth`?
pub fn tok_is_ninth(t: &[u8]) -> (r: bool)
    ensures
        r == (t@ == kw_ninth()),
{
    let kw = kw_ninth_vec();
    bytes_eq(t, kw.as_slice())
}

pub open spec fn kw_tenth() -> Seq<u8> {
    seq![0x74u8, 0x65u8, 0x6eu8, 0x74u8, 0x68u8]
}

/// The keyword `tenth` as a vector of bytes.
pub fn kw_tenth_vec() -> (r: Vec<u8>)
    ensures
        r@ == kw_tenth(),
{
    let r: Vec<u8> = vec![0x74u8, 0x65u8, 0x6eu8, 0x74u8, 0x68u8];
    proof {
        assert(r@ =~= kw_tenth());
    }
    r
}

/// Is `t` the keyword `tenth`?
pub fn tok_is_tenth(t: &[u8]) -> (r: bool)
    ensures
        r == (t@ == kw_tenth()),
{
    let kw = kw_tenth_vec();
    bytes_eq(t, kw.as_slice())
}

pub open spec fn kw_eleventh() -> Seq<u8> {
    seq![0x65u8, 0x6cu8, 0x65u8, 0x76u8, 0x65u8, 0x6eu8, 0x74u8, 0x68u8]
}

/// The keyword `eleventh` as a vector of bytes.
pub fn kw_eleventh_vec() -> (r: Vec<u8>)
    ensures
        r@ == kw_eleventh(),
{
    let r: Vec<u8> = vec![0x65u8, 0x6cu8, 0x65u8, 0x76u8, 0x65u8, 0x6eu8, 0x74u8, 0x68u8];
    proof {
        assert(r@ =~= kw_eleventh());
    }
    r
}

/// Is `t` the keyword `eleventh`?
pub fn tok_is_eleventh(t: &[u8]) -> (r: bool)
    ensures
        r == (t@ == kw_eleventh()),
{
    let kw = kw_eleventh_vec();
    bytes_eq(t, kw.as_slice())
}

pub open spec fn kw_twelfth() -> Seq<u8> {
    seq![0x74u8, 0x77u8, 0x65u8, 0x6cu8, 0x66u8, 0x74u8, 0x68u8]
}

/// The keyword `twelfth` as a vector of bytes.
pub fn kw_twelfth_vec() -> (r: Vec<u8>)
    ensures
        r@ == kw_twelfth(),
{
    let r: Vec<u8> = vec![0x74u8, 0x77u8, 0x65u8, 0x6cu8, 0x66u8, 0x74u8, 0x68u8];
    proof {
        assert(r@ =~= kw_twelfth());
    }
    r
}

/// Is `t` the keyword `twelfth`?
pub fn tok_is_twelfth(t: &[u8]) -> (r: bool)
    ensures
        r == (t@ == kw_twelfth()),
{
    let kw = kw_twelfth_vec();
    bytes_eq(t, kw.as_slice())
}

pub open spec fn kw_true() -> Seq<u8> {
    seq![0x74u8, 0x72u8, 0x75u8, 0x65u8]
}

/// The keyword `true` as a vector of bytes.
pub fn kw_true_vec() -> (r: Vec<u8>)
    ensures
        r@ == kw_true(),
{
    let r: Vec<u8> = vec![0x74u8, 0x72u8, 0x75u8, 0x65u8];
    proof {
        assert(r@ =~= kw_true());
    }
    r
}

/// Is `t` the keyword `true`?
pub fn tok_is_true(t: &[u8]) -> (r: bool)
    ensures
        r == (t@ == kw_true()),
{
    let kw = kw_true_vec();
    bytes_eq(t, kw.as_slice())
}

pub open spec fn kw_false() -> Seq<u8> {
    seq![0x66u8, 0x61u8, 0x6cu8, 0x73u8, 0x65u8]
}

/// The keyword `false` as a vector of bytes.
pub fn kw_false_vec() -> (r: Vec<u8>)
    ensures
        r@ == kw_false(),
{
    let r: Vec<u8> = vec![0x66u8, 0x61u8, 0x6cu8, 0x73u8, 0x65u8];
    proof {
        assert(r@ =~= kw_false());
    }
    r
}

/// Is `t` the keyword `false`?
pub fn tok_is_false(t: &[u8]) -> (r: bool)
    ensures
        r == (t@ == kw_false()),
{
    let kw = kw_false_vec();
    bytes_eq(t, kw.as_slice())
}

pub open spec fn kw_on() -> Seq<u8> {
    seq![0x6fu8, 0x6eu8]
}

/// The keyword `on` as a vector of bytes.
pub fn kw_on_vec() -> (r: Vec<u8>)
    ensures
        r@ == kw_on(),
{
    let r: Vec<u8> = vec![0x6fu8, 0x6eu8];
    proof {
        assert(r@ =~= kw_on());
    }
    r
}

/// Is `t` the keyword `on`?
pub fn tok_is_on(t: &[u8]) -> (r: bool)
    ensures
        r == (t@ == kw_on()),
{
    let kw = kw_on_vec();
    bytes_eq(t, kw.as_slice())
}

pub open spec fn kw_off() -> Seq<u8> {
    seq![0x6fu8, 0x66u8, 0x66u8]
}

/// The keyword `off` as a vector of bytes.
pub fn kw_off_vec() -> (r: Vec<u8>)
    ensures
        r@ == kw_off(),
{
    let r: Vec<u8> = vec![0x6fu8, 0x66u8, 0x66u8];
    proof {
        assert(r@ =~= kw_off());
    }
    r
}

/// Is `t` the keyword `off`?
pub fn tok_is_off(t: &[u8]) -> (r: bool)
    ensures
        r == (t@ == kw_off()),
{
    let kw = kw_off_vec();
    bytes_eq(t, kw.as_slice())
}

pub open spec fn kw_enabled() -> Seq<u8> {
    seq![0x65u8, 0x6eu8, 0x61u8, 0x62u8, 0x6cu8, 0x65u8, 0x64u8]
}

/// The keyword `enabled` as a vector of bytes.
pub fn kw_enabled_vec() -> (r: Vec<u8>)
    ensures
        r@ == kw_enabled(),
{
    let r: Vec<u8> = vec![0x65u8, 0x6eu8, 0x61u8, 0x62u8, 0x6cu8, 0x65u8, 0x64u8];
    proof {
        assert(r@ =~= kw_enabled());
    }
    r
}

/// Is `t` the keyword `enabled`?
pub fn tok_is_enabled(t: &[u8]) -> (r: bool)
    ensures
        r == (t@ == kw_enabled()),
{
    let kw = kw_enabled_vec();
    bytes_eq(t, kw.as_slice())
}

pub open spec fn kw_disabled() -> Seq<u8> {
    seq![0x64u8, 0x69u8, 0x73u8, 0x61u8, 0x62u8, 0x6cu8, 0x65u8, 0x64u8]
}

/// The keyword `disabled` as a vector of bytes.
pub fn kw_disabled_vec() -> (r: Vec<u8>)
    ensures
        r@ == kw_disabled(),
{
    let r: Vec<u8> = vec![0x64u8, 0x69u8, 0x73u8, 0x61u8, 0x62u8, 0x6cu8, 0x65u8, 0x64u8];
    proof {
        assert(r@ =~= kw_disabled());
    }
    r
}

/// Is `t` the keyword `disabled`?
pub fn tok_is_disabled(t: &[u8]) -> (r: bool)
    ensures
        r == (t@ == kw_disabled()),
{
    let kw = kw_disabled_vec();
    bytes_eq(t, kw.as_slice())
}

pub open spec fn kw_empty() -> Seq<u8> {
    seq![0x65u8, 0x6du8, 0x70u8, 0x74u8, 0x79u8]
}

/// The keyword `empty` as a vector of bytes.
pub fn kw_empty_vec() -> (r: Vec<u8>)
    ensures
        r@ == kw_empty(),
{
    let r: Vec<u8> = vec![0x65u8, 0x6du8, 0x70u8, 0x74u8, 0x79u8];
    proof {
        assert(r@ =~= kw_empty());
    }
    r
}

/// Is `t` the keyword `empty`?
pub fn tok_is_empty(t: &[u8]) -> (r: bool)
    ensures
        r == (t@ == kw_empty()),
{
    let kw = kw_empty_vec();
    bytes_eq(t, kw.as_slice())
}

pub open spec fn kw_nothing() -> Seq<u8> {
    seq![0x6eu8, 0x6fu8, 0x74u8, 0x68u8, 0x69u8, 0x6eu8, 0x67u8]
}

/// The keyword `nothing` as a vector of bytes.
pub fn kw_nothing_vec() -> (r: Vec<u8>)
    ensures
        r@ == kw_nothing(),
{
    let r: Vec<u8> = vec![0x6eu8, 0x6fu8, 0x74u8, 0x68u8, 0x69u8, 0x6eu8, 0x67u8];
    proof {
        assert(r@ =~= kw_nothing());
    }
    r
}

/// Is `t` the keyword `nothing`?
pub fn tok_is_nothing(t: &[u8]) -> (r: bool)
    ensures
        r == (t@ == kw_nothing()),
{
    let kw = kw_nothing_vec();
    bytes_eq(t, kw.as_slice())
}

pub open spec fn kw_object() -> Seq<u8> {
    seq![0x6fu8, 0x62u8, 0x6au8, 0x65u8, 0x63u8, 0x74u8]
}

/// The keyword `object` as a vector of bytes.
pub fn kw_object_vec() -> (r: Vec<u8>)
    ensures
        r@ == kw_object(),
{
    let r: Vec<u8> = vec![0x6fu8, 0x62u8, 0x6au8, 0x65u8, 0x63u8, 0x74u8];
    proof {
        assert(r@ =~= kw_object());
    }
    r
}

/// Is `t` the keyword `object`?
pub fn tok_is_object(t: &[u8]) -> (r: bool)
    ensures
        r == (t@ == kw_object()),
{
    let kw = kw_object_vec();
    bytes_eq(t, kw.as_slice())
}

pub open spec fn kw_list() -> Seq<u8> {
    seq![0x6cu8, 0x69u8, 0x73u8, 0x74u8]
}

/// The keyword `list` as a vector of bytes.
pub fn kw_list_vec() -> (r: Vec<u8>)
    ensures
        r@ == kw_list(),
{
    let r: Vec<u8> = vec![0x6cu8, 0x69u8, 0x73u8, 0x74u8];
    proof {
        assert(r@ =~= kw_list());
    }
    r
}

/// Is `t` the keyword `list`?
pub fn tok_is_list(t: &[u8]) -> (r: bool)
    ensures
        r == (t@ == kw_list()),
{
    let kw = kw_list_vec();
    bytes_eq(t, kw.as_slice())
}

pub open spec fn kw_henceforth() -> Seq<u8> {
    seq![0x68u8, 0x65u8, 0x6eu8, 0x63u8, 0x65u8, 0x66u8, 0x6fu8, 0x72u8, 0x74u8, 0x68u8]
}

/// The keyword `henceforth` as a vector of bytes.
pub fn kw_henceforth_vec() -> (r: Vec<u8>)
    ensures
        r@ == kw_henceforth(),
{
    let r: Vec<u8> = vec![0x68u8, 0x65u8, 0x6eu8, 0x63u8, 0x65u8, 0x66u8, 0x6fu8, 0x72u8, 0x74u8, 0x68u8];
    proof {
        assert(r@ =~= kw_henceforth());
    }
    r
}

/// Is `t` the keyword `henceforth`?
pub fn tok_is_henceforth(t: &[u8]) -> (r: bool)
    ensures
        r == (t@ == kw_henceforth()),
{
    let kw = kw_henceforth_vec();
    bytes_eq(t, kw.as_slice())
}

pub open spec fn kw_where() -> Seq<u8> {
    seq![0x77u8, 0x68u8, 0x65u8, 0x72u8, 0x65u8]
}

/// The keyword `where` as a vector of bytes.
pub fn kw_where_vec() -> (r: Vec<u8>)
    ensures
        r@ == kw_where(),
{
    let r: Vec<u8> = vec![0x77u8, 0x68u8, 0x65u8, 0x72u8, 0x65u8];
    proof {
        assert(r@ =~= kw_where());
    }
    r
}

/// Is `t` the keyword `where`?
pub fn tok_is_where(t: &[u8]) -> (r: bool)
    ensures
        r == (t@ == kw_where()),
{
    let kw = kw_where_vec();
    bytes_eq(t, kw.as_slice())
}

pub open spec fn kw_an() -> Seq<u8> {
    seq![0x61u8, 0x6eu8]
}

/// The keyword `an` as a vector of bytes.
pub fn kw_an_vec() -> (r: Vec<u8>)
    ensures
        r@ == kw_an(),
{
    let r: Vec<u8> = vec![0x61u8, 0x6eu8];
    proof {
        assert(r@ =~= kw_an());
    }
    r
}

/// Is `t` the keyword `an`?
pub fn tok_is_an(t: &[u8]) -> (r: bool)
    ensures
        r == (t@ == kw_an()),
{
    let kw = kw_an_vec();
    bytes_eq(t, kw.as_slice())
}

pub open spec fn kw_which() -> Seq<u8> {
    seq![0x77u8, 0x68u8, 0x69u8, 0x63u8, 0x68u8]
}

/// The keyword `which` as a vector of bytes.
pub fn kw_which_vec() -> (r: Vec<u8>)
    ensures
        r@ == kw_which(),
{
    let r: Vec<u8> = vec![0x77u8, 0x68u8, 0x69u8, 0x63u8, 0x68u8];
    proof {
        assert(r@ =~= kw_which());
    }
    r
}

/// Is `t` the keyword `which`?
pub fn tok_is_which(t: &[u8]) -> (r: bool)
    ensures
        r == (t@ == kw_which()),
{
    let kw = kw_which_vec();
    bytes_eq(t, kw.as_slice())
}

pub open spec fn kw_is() -> Seq<u8> {
    seq![0x69u8, 0x73u8]
}

/// The keyword `is` as a vector of bytes.
pub fn kw_is_vec() -> (r: Vec<u8>)
    ensures
        r@ == kw_is(),
{
    let r: Vec<u8> = vec![0x69u8, 0x73u8];
    proof {
        assert(r@ =~= kw_is());
    }
    r
}

/// Is `t` the keyword `is`?
pub fn tok_is_is(t: &[u8]) -> (r: bool)
    ensures
        r == (t@ == kw_is()),
{
    let kw = kw_is_vec();
    bytes_eq(t, kw.as_slice())
}

pub open spec fn kw_and() -> Seq<u8> {
    seq![0x61u8, 0x6eu8, 0x64u8]
}

/// The keyword `and` as a vector of bytes.
pub fn kw_and_vec() -> (r: Vec<u8>)
    ensures
        r@ == kw_and(),
{
    let r: Vec<u8> = vec![0x61u8, 0x6eu8, 0x64u8];
    proof {
        assert(r@ =~= kw_and());
    }
    r
}

/// Is `t` the keyword `and`?
pub fn tok_is_and(t: &[u8]) -> (r: bool)
    ensures
        r == (t@ == kw_and()),
{
    let kw = kw_and_vec();
    bytes_eq(t, kw.as_slice())
}

pub open spec fn kw_another() -> Seq<u8> {
    seq![0x61u8, 0x6eu8, 0x6fu8, 0x74u8, 0x68u8, 0x65u8, 0x72u8]
}

/// The keyword `another` as a vector of bytes.
pub fn kw_another_vec() -> (r: Vec<u8>)
    ensures
        r@ == kw_another(),
{
    let r: Vec<u8> = vec![0x61u8, 0x6eu8, 0x6fu8, 0x74u8, 0x68u8, 0x65u8, 0x72u8];
    proof {
        assert(r@ =~= kw_another());
    }
    r
}

/// Is `t` the keyword `another`?
pub fn tok_is_another(t: &[u8]) -> (r: bool)
    ensures
        r == (t@ == kw_another()),
{
    let kw = kw_another_vec();
    bytes_eq(t, kw.as_slice())
}

pub open spec fn kw_amount() -> Seq<u8> {
    seq![0x61u8, 0x6du8, 0x6fu8, 0x75u8, 0x6eu8, 0x74u8]
}

/// The tag `amount` as a vector of bytes.
pub fn kw_amount_vec() -> (r: Vec<u8>)
    ensures
        r@ == kw_amount(),
{
    let r: Vec<u8> = vec![0x61u8, 0x6du8, 0x6fu8, 0x75u8, 0x6eu8, 0x74u8];
    proof {
        assert(r@ =~= kw_amount());
    }
    r
}

/// Is `t` the tag `amount`?
pub fn tok_is_amount(t: &[u8]) -> (r: bool)
    ensures
        r == (t@ == kw_amount()),
{
    let kw = kw_amount_vec();
    bytes_eq(t, kw.as_slice())
}

pub open spec fn kw_custom_tag() -> Seq<u8> {
    seq![0x6eu8, 0x6fu8, 0x6eu8, 0x5fu8, 0x73u8, 0x74u8, 0x61u8, 0x6eu8, 0x64u8, 0x61u8, 0x72u8, 0x64u8, 0x5fu8, 0x6fu8, 0x62u8, 0x6au8, 0x65u8, 0x63u8, 0x74u8]
}

/// The tag `non_standard_object` as a vector of bytes.
pub fn kw_custom_tag_vec() -> (r: Vec<u8>)
    ensures
        r@ == kw_custom_tag(),
{
    let r: Vec<u8> = vec![0x6eu8, 0x6fu8, 0x6eu8, 0x5fu8, 0x73u8, 0x74u8, 0x61u8, 0x6eu8, 0x64u8, 0x61u8, 0x72u8, 0x64u8, 0x5fu8, 0x6fu8, 0x62u8, 0x6au8, 0x65u8, 0x63u8, 0x74u8];
    proof {
        assert(r@ =~= kw_custom_tag());
    }
    r
}

/// Is `t` the tag `non_standard_object`?
pub fn tok_is_custom_tag(t: &[u8]) -> (r: bool)
    ensures
        r == (t@ == kw_custom_tag()),
{
    let kw = kw_custom_tag_vec();
    bytes_eq(t, kw.as_slice())
}

/// The keywords the document grammar can demand at a fixed place.
#[derive(Debug, Clone, Copy, PartialEq, Eq, Structural)]
pub enum Keyword {
    The,
    Object,
    List,
    Henceforth,
    Where,
    An,
    Item,
    Of,
    Which,
    Is,
    And,
    Another,
}

/// The bytes of a keyword.
pub open spec fn spec_kw(k: Keyword) -> Seq<u8> {
    match k {
        Keyword::The => kw_the(),
        Keyword::Object => kw_object(),
        Keyword::List => kw_list(),
        Keyword::Henceforth => kw_henceforth(),
        Keyword::Where => kw_where(),
        Keyword::An => kw_an(),
        Keyword::Item => kw_item(),
        Keyword::Of => kw_of(),
        Keyword::Which => kw_which(),
        Keyword::Is => kw_is(),
        Keyword::And => kw_and(),
        Keyword::Another => kw_another(),
    }
}

/// The keyword as a vector of bytes.
pub fn kw_vec(k: Keyword) -> (r: Vec<u8>)
    ensures
        r@ == spec_kw(k),
{
    match k {
        Keyword::The => kw_the_vec(),
        Keyword::Object => kw_object_vec(),
        Keyword::List => kw_list_vec(),
        Keyword::Henceforth => kw_henceforth_vec(),
        Keyword::Where => kw_where_vec(),
        Keyword::An => kw_an_vec(),
        Keyword::Item => kw_item_vec(),
        Keyword::Of => kw_of_vec(),
        Keyword::Which => kw_which_vec(),
        Keyword::Is => kw_is_vec(),
        Keyword::And => kw_and_vec(),
        Keyword::Another => kw_another_vec(),
    }
}

/// A word of the truthy set.
pub open spec fn spec_true_token(t: Seq<u8>) -> bool {
    t == kw_true() || t == kw_on() || t == kw_enabled()
}

/// A word of the falsy set.
pub open spec fn spec_false_token(t: Seq<u8>) -> bool {
    t == kw_false() || t == kw_off() || t == kw_disabled()
}

/// A word of the null set.
pub open spec fn spec_null_token(t: Seq<u8>) -> bool {
    t == kw_empty() || t == kw_nothing()
}

/// Is `t` a truthy word?
pub fn tok_truthy(t: &[u8]) -> (r: bool)
    ensures
        r == spec_true_token(t@),
{
    tok_is_true(t) || tok_is_on(t) || tok_is_enabled(t)
}

/// Is `t` a falsy word?
pub fn tok_falsy(t: &[u8]) -> (r: bool)
    ensures
        r == spec_false_token(t@),
{
    tok_is_false(t) || tok_is_off(t) || tok_is_disabled(t)
}

/// Is `t` a null word?
pub fn tok_null(t: &[u8]) -> (r: bool)
    ensures
        r == spec_null_token(t@),
{
    tok_is_empty(t) || tok_is_nothing(t)
}

} // verus!
