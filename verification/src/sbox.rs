//! The AES-128 substitution box and key-schedule round constants, exposed
//! both as specification sequences and as executable tables.
use vstd::prelude::*;

verus! {

/// Row 0 of the substitution box.
pub open spec fn sbox_row_0() -> Seq<u8> {
    seq![0x63u8, 0x7cu8, 0x77u8, 0x7bu8, 0xf2u8, 0x6bu8, 0x6fu8, 0xc5u8, 0x30u8, 0x01u8, 0x67u8, 0x2bu8, 0xfeu8, 0xd7u8, 0xabu8, 0x76u8]
}

/// Row 1 of the substitution box.
pub open spec fn sbox_row_1() -> Seq<u8> {
    seq![0xcau8, 0x82u8, 0xc9u8, 0x7du8, 0xfau8, 0x59u8, 0x47u8, 0xf0u8, 0xadu8, 0xd4u8, 0xa2u8, 0xafu8, 0x9cu8, 0xa4u8, 0x72u8, 0xc0u8]
}

/// Row 2 of the substitution box.
pub open spec fn sbox_row_2() -> Seq<u8> {
    seq![0xb7u8, 0xfdu8, 0x93u8, 0x26u8, 0x36u8, 0x3fu8, 0xf7u8, 0xccu8, 0x34u8, 0xa5u8, 0xe5u8, 0xf1u8, 0x71u8, 0xd8u8, 0x31u8, 0x15u8]
}

/// Row 3 of the substitution box.
pub open spec fn sbox_row_3() -> Seq<u8> {
    seq![0x04u8, 0xc7u8, 0x23u8, 0xc3u8, 0x18u8, 0x96u8, 0x05u8, 0x9au8, 0x07u8, 0x12u8, 0x80u8, 0xe2u8, 0xebu8, 0x27u8, 0xb2u8, 0x75u8]
}

/// Row 4 of the substitution box.
pub open spec fn sbox_row_4() -> Seq<u8> {
    seq![0x09u8, 0x83u8, 0x2cu8, 0x1au8, 0x1bu8, 0x6eu8, 0x5au8, 0xa0u8, 0x52u8, 0x3bu8, 0xd6u8, 0xb3u8, 0x29u8, 0xe3u8, 0x2fu8, 0x84u8]
}

/// Row 5 of the substitution box.
pub open spec fn sbox_row_5() -> Seq<u8> {
    seq![0x53u8, 0xd1u8, 0x00u8, 0xedu8, 0x20u8, 0xfcu8, 0xb1u8, 0x5bu8, 0x6au8, 0xcbu8, 0xbeu8, 0x39u8, 0x4au8, 0x4cu8, 0x58u8, 0xcfu8]
}

/// Row 6 of the substitution box.
pub open spec fn sbox_row_6() -> Seq<u8> {
    seq![0xd0u8, 0xefu8, 0xaau8, 0xfbu8, 0x43u8, 0x4du8, 0x33u8, 0x85u8, 0x45u8, 0xf9u8, 0x02u8, 0x7fu8, 0x50u8, 0x3cu8, 0x9fu8, 0xa8u8]
}

/// Row 7 of the substitution box.
pub open spec fn sbox_row_7() -> Seq<u8> {
    seq![0x51u8, 0xa3u8, 0x40u8, 0x8fu8, 0x92u8, 0x9du8, 0x38u8, 0xf5u8, 0xbcu8, 0xb6u8, 0xdau8, 0x21u8, 0x10u8, 0xffu8, 0xf3u8, 0xd2u8]
}

/// Row 8 of the substitution box.
pub open spec fn sbox_row_8() -> Seq<u8> {
    seq![0xcdu8, 0x0cu8, 0x13u8, 0xecu8, 0x5fu8, 0x97u8, 0x44u8, 0x17u8, 0xc4u8, 0xa7u8, 0x7eu8, 0x3du8, 0x64u8, 0x5du8, 0x19u8, 0x73u8]
}

/// Row 9 of the substitution box.
pub open spec fn sbox_row_9() -> Seq<u8> {
    seq![0x60u8, 0x81u8, 0x4fu8, 0xdcu8, 0x22u8, 0x2au8, 0x90u8, 0x88u8, 0x46u8, 0xeeu8, 0xb8u8, 0x14u8, 0xdeu8, 0x5eu8, 0x0bu8, 0xdbu8]
}

/// Row 10 of the substitution box.
pub open spec fn sbox_row_10() -> Seq<u8> {
    seq![0xe0u8, 0x32u8, 0x3au8, 0x0au8, 0x49u8, 0x06u8, 0x24u8, 0x5cu8, 0xc2u8, 0xd3u8, 0xacu8, 0x62u8, 0x91u8, 0x95u8, 0xe4u8, 0x79u8]
}

/// Row 11 of the substitution box.
pub open spec fn sbox_row_11() -> Seq<u8> {
    seq![0xe7u8, 0xc8u8, 0x37u8, 0x6du8, 0x8du8, 0xd5u8, 0x4eu8, 0xa9u8, 0x6cu8, 0x56u8, 0xf4u8, 0xeau8, 0x65u8, 0x7au8, 0xaeu8, 0x08u8]
}

/// Row 12 of the substitution box.
pub open spec fn sbox_row_12() -> Seq<u8> {
    seq![0xbau8, 0x78u8, 0x25u8, 0x2eu8, 0x1cu8, 0xa6u8, 0xb4u8, 0xc6u8, 0xe8u8, 0xddu8, 0x74u8, 0x1fu8, 0x4bu8, 0xbdu8, 0x8bu8, 0x8au8]
}

/// Row 13 of the substitution box.
pub open spec fn sbox_row_13() -> Seq<u8> {
    seq![0x70u8, 0x3eu8, 0xb5u8, 0x66u8, 0x48u8, 0x03u8, 0xf6u8, 0x0eu8, 0x61u8, 0x35u8, 0x57u8, 0xb9u8, 0x86u8, 0xc1u8, 0x1du8, 0x9eu8]
}

/// Row 14 of the substitution box.
pub open spec fn sbox_row_14() -> Seq<u8> {
    seq![0xe1u8, 0xf8u8, 0x98u8, 0x11u8, 0x69u8, 0xd9u8, 0x8eu8, 0x94u8, 0x9bu8, 0x1eu8, 0x87u8, 0xe9u8, 0xceu8, 0x55u8, 0x28u8, 0xdfu8]
}

/// Row 15 of the substitution box.
pub open spec fn sbox_row_15() -> Seq<u8> {
    seq![0x8cu8, 0xa1u8, 0x89u8, 0x0du8, 0xbfu8, 0xe6u8, 0x42u8, 0x68u8, 0x41u8, 0x99u8, 0x2du8, 0x0fu8, 0xb0u8, 0x54u8, 0xbbu8, 0x16u8]
}

/// The AES substitution box.
pub open spec fn sbox_seq() -> Seq<u8> {
    sbox_row_0() + sbox_row_1() + sbox_row_2() + sbox_row_3() + sbox_row_4() + sbox_row_5() + sbox_row_6() + sbox_row_7() + sbox_row_8() + sbox_row_9() + sbox_row_10() + sbox_row_11() + sbox_row_12() + sbox_row_13() + sbox_row_14() + sbox_row_15()
}

/// The key-schedule round constants.
pub open spec fn rcon_seq() -> Seq<u8> {
    seq![0x00u8, 0x01u8, 0x02u8, 0x04u8, 0x08u8, 0x10u8, 0x20u8, 0x40u8, 0x80u8, 0x1bu8, 0x36u8]
}

fn push_sbox_row_0(t: &mut Vec<u8>)
    ensures
        final(t)@ == old(t)@ + sbox_row_0(),
{
    t.push(0x63);
    t.push(0x7c);
    t.push(0x77);
    t.push(0x7b);
    t.push(0xf2);
    t.push(0x6b);
    t.push(0x6f);
    t.push(0xc5);
    t.push(0x30);
    t.push(0x01);
    t.push(0x67);
    t.push(0x2b);
    t.push(0xfe);
    t.push(0xd7);
    t.push(0xab);
    t.push(0x76);
    assert(t@ =~= old(t)@ + sbox_row_0());
}

fn push_sbox_row_1(t: &mut Vec<u8>)
    ensures
        final(t)@ == old(t)@ + sbox_row_1(),
{
    t.push(0xca);
    t.push(0x82);
    t.push(0xc9);
    t.push(0x7d);
    t.push(0xfa);
    t.push(0x59);
    t.push(0x47);
    t.push(0xf0);
    t.push(0xad);
    t.push(0xd4);
    t.push(0xa2);
    t.push(0xaf);
    t.push(0x9c);
    t.push(0xa4);
    t.push(0x72);
    t.push(0xc0);
    assert(t@ =~= old(t)@ + sbox_row_1());
}

fn push_sbox_row_2(t: &mut Vec<u8>)
    ensures
        final(t)@ == old(t)@ + sbox_row_2(),
{
    t.push(0xb7);
    t.push(0xfd);
    t.push(0x93);
    t.push(0x26);
    t.push(0x36);
    t.push(0x3f);
    t.push(0xf7);
    t.push(0xcc);
    t.push(0x34);
    t.push(0xa5);
    t.push(0xe5);
    t.push(0xf1);
    t.push(0x71);
    t.push(0xd8);
    t.push(0x31);
    t.push(0x15);
    assert(t@ =~= old(t)@ + sbox_row_2());
}

fn push_sbox_row_3(t: &mut Vec<u8>)
    ensures
        final(t)@ == old(t)@ + sbox_row_3(),
{
    t.push(0x04);
    t.push(0xc7);
    t.push(0x23);
    t.push(0xc3);
    t.push(0x18);
    t.push(0x96);
    t.push(0x05);
    t.push(0x9a);
    t.push(0x07);
    t.push(0x12);
    t.push(0x80);
    t.push(0xe2);
    t.push(0xeb);
    t.push(0x27);
    t.push(0xb2);
    t.push(0x75);
    assert(t@ =~= old(t)@ + sbox_row_3());
}

fn push_sbox_row_4(t: &mut Vec<u8>)
    ensures
        final(t)@ == old(t)@ + sbox_row_4(),
{
    t.push(0x09);
    t.push(0x83);
    t.push(0x2c);
    t.push(0x1a);
    t.push(0x1b);
    t.push(0x6e);
    t.push(0x5a);
    t.push(0xa0);
    t.push(0x52);
    t.push(0x3b);
    t.push(0xd6);
    t.push(0xb3);
    t.push(0x29);
    t.push(0xe3);
    t.push(0x2f);
    t.push(0x84);
    assert(t@ =~= old(t)@ + sbox_row_4());
}

fn push_sbox_row_5(t: &mut Vec<u8>)
    ensures
        final(t)@ == old(t)@ + sbox_row_5(),
{
    t.push(0x53);
    t.push(0xd1);
    t.push(0x00);
    t.push(0xed);
    t.push(0x20);
    t.push(0xfc);
    t.push(0xb1);
    t.push(0x5b);
    t.push(0x6a);
    t.push(0xcb);
    t.push(0xbe);
    t.push(0x39);
    t.push(0x4a);
    t.push(0x4c);
    t.push(0x58);
    t.push(0xcf);
    assert(t@ =~= old(t)@ + sbox_row_5());
}

fn push_sbox_row_6(t: &mut Vec<u8>)
    ensures
        final(t)@ == old(t)@ + sbox_row_6(),
{
    t.push(0xd0);
    t.push(0xef);
    t.push(0xaa);
    t.push(0xfb);
    t.push(0x43);
    t.push(0x4d);
    t.push(0x33);
    t.push(0x85);
    t.push(0x45);
    t.push(0xf9);
    t.push(0x02);
    t.push(0x7f);
    t.push(0x50);
    t.push(0x3c);
    t.push(0x9f);
    t.push(0xa8);
    assert(t@ =~= old(t)@ + sbox_row_6());
}

fn push_sbox_row_7(t: &mut Vec<u8>)
    ensures
        final(t)@ == old(t)@ + sbox_row_7(),
{
    t.push(0x51);
    t.push(0xa3);
    t.push(0x40);
    t.push(0x8f);
    t.push(0x92);
    t.push(0x9d);
    t.push(0x38);
    t.push(0xf5);
    t.push(0xbc);
    t.push(0xb6);
    t.push(0xda);
    t.push(0x21);
    t.push(0x10);
    t.push(0xff);
    t.push(0xf3);
    t.push(0xd2);
    assert(t@ =~= old(t)@ + sbox_row_7());
}

fn push_sbox_row_8(t: &mut Vec<u8>)
    ensures
        final(t)@ == old(t)@ + sbox_row_8(),
{
    t.push(0xcd);
    t.push(0x0c);
    t.push(0x13);
    t.push(0xec);
    t.push(0x5f);
    t.push(0x97);
    t.push(0x44);
    t.push(0x17);
    t.push(0xc4);
    t.push(0xa7);
    t.push(0x7e);
    t.push(0x3d);
    t.push(0x64);
    t.push(0x5d);
    t.push(0x19);
    t.push(0x73);
    assert(t@ =~= old(t)@ + sbox_row_8());
}

fn push_sbox_row_9(t: &mut Vec<u8>)
    ensures
        final(t)@ == old(t)@ + sbox_row_9(),
{
    t.push(0x60);
    t.push(0x81);
    t.push(0x4f);
    t.push(0xdc);
    t.push(0x22);
    t.push(0x2a);
    t.push(0x90);
    t.push(0x88);
    t.push(0x46);
    t.push(0xee);
    t.push(0xb8);
    t.push(0x14);
    t.push(0xde);
    t.push(0x5e);
    t.push(0x0b);
    t.push(0xdb);
    assert(t@ =~= old(t)@ + sbox_row_9());
}

fn push_sbox_row_10(t: &mut Vec<u8>)
    ensures
        final(t)@ == old(t)@ + sbox_row_10(),
{
    t.push(0xe0);
    t.push(0x32);
    t.push(0x3a);
    t.push(0x0a);
    t.push(0x49);
    t.push(0x06);
    t.push(0x24);
    t.push(0x5c);
    t.push(0xc2);
    t.push(0xd3);
    t.push(0xac);
    t.push(0x62);
    t.push(0x91);
    t.push(0x95);
    t.push(0xe4);
    t.push(0x79);
    assert(t@ =~= old(t)@ + sbox_row_10());
}

fn push_sbox_row_11(t: &mut Vec<u8>)
    ensures
        final(t)@ == old(t)@ + sbox_row_11(),
{
    t.push(0xe7);
    t.push(0xc8);
    t.push(0x37);
    t.push(0x6d);
    t.push(0x8d);
    t.push(0xd5);
    t.push(0x4e);
    t.push(0xa9);
    t.push(0x6c);
    t.push(0x56);
    t.push(0xf4);
    t.push(0xea);
    t.push(0x65);
    t.push(0x7a);
    t.push(0xae);
    t.push(0x08);
    assert(t@ =~= old(t)@ + sbox_row_11());
}

fn push_sbox_row_12(t: &mut Vec<u8>)
    ensures
        final(t)@ == old(t)@ + sbox_row_12(),
{
    t.push(0xba);
    t.push(0x78);
    t.push(0x25);
    t.push(0x2e);
    t.push(0x1c);
    t.push(0xa6);
    t.push(0xb4);
    t.push(0xc6);
    t.push(0xe8);
    t.push(0xdd);
    t.push(0x74);
    t.push(0x1f);
    t.push(0x4b);
    t.push(0xbd);
    t.push(0x8b);
    t.push(0x8a);
    assert(t@ =~= old(t)@ + sbox_row_12());
}

fn push_sbox_row_13(t: &mut Vec<u8>)
    ensures
        final(t)@ == old(t)@ + sbox_row_13(),
{
    t.push(0x70);
    t.push(0x3e);
    t.push(0xb5);
    t.push(0x66);
    t.push(0x48);
    t.push(0x03);
    t.push(0xf6);
    t.push(0x0e);
    t.push(0x61);
    t.push(0x35);
    t.push(0x57);
    t.push(0xb9);
    t.push(0x86);
    t.push(0xc1);
    t.push(0x1d);
    t.push(0x9e);
    assert(t@ =~= old(t)@ + sbox_row_13());
}

fn push_sbox_row_14(t: &mut Vec<u8>)
    ensures
        final(t)@ == old(t)@ + sbox_row_14(),
{
    t.push(0xe1);
    t.push(0xf8);
    t.push(0x98);
    t.push(0x11);
    t.push(0x69);
    t.push(0xd9);
    t.push(0x8e);
    t.push(0x94);
    t.push(0x9b);
    t.push(0x1e);
    t.push(0x87);
    t.push(0xe9);
    t.push(0xce);
    t.push(0x55);
    t.push(0x28);
    t.push(0xdf);
    assert(t@ =~= old(t)@ + sbox_row_14());
}

fn push_sbox_row_15(t: &mut Vec<u8>)
    ensures
        final(t)@ == old(t)@ + sbox_row_15(),
{
    t.push(0x8c);
    t.push(0xa1);
    t.push(0x89);
    t.push(0x0d);
    t.push(0xbf);
    t.push(0xe6);
    t.push(0x42);
    t.push(0x68);
    t.push(0x41);
    t.push(0x99);
    t.push(0x2d);
    t.push(0x0f);
    t.push(0xb0);
    t.push(0x54);
    t.push(0xbb);
    t.push(0x16);
    assert(t@ =~= old(t)@ + sbox_row_15());
}

/// Build the substitution box as a vector.
pub fn aes128_sbox() -> (t: Vec<u8>)
    ensures
        t@ == sbox_seq(),
        t@.len() == 256,
{
    let mut t: Vec<u8> = Vec::new();
    push_sbox_row_0(&mut t);
    push_sbox_row_1(&mut t);
    push_sbox_row_2(&mut t);
    push_sbox_row_3(&mut t);
    push_sbox_row_4(&mut t);
    push_sbox_row_5(&mut t);
    push_sbox_row_6(&mut t);
    push_sbox_row_7(&mut t);
    push_sbox_row_8(&mut t);
    push_sbox_row_9(&mut t);
    push_sbox_row_10(&mut t);
    push_sbox_row_11(&mut t);
    push_sbox_row_12(&mut t);
    push_sbox_row_13(&mut t);
    push_sbox_row_14(&mut t);
    push_sbox_row_15(&mut t);
    proof {
        assert(t@ =~= sbox_seq());
    }
    t
}

/// Build the round-constant table as a vector.
pub fn rcon_table() -> (t: Vec<u8>)
    ensures
        t@ == rcon_seq(),
        t@.len() == 11,
{
    let mut t: Vec<u8> = Vec::new();
    t.push(0x00);
    t.push(0x01);
    t.push(0x02);
    t.push(0x04);
    t.push(0x08);
    t.push(0x10);
    t.push(0x20);
    t.push(0x40);
    t.push(0x80);
    t.push(0x1b);
    t.push(0x36);
    assert(t@ =~= rcon_seq());
    t
}

} // verus!
