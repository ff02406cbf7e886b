//! The plaintext AES-128 reference implementation, the correctness oracle
//! for the homomorphic evaluation. The cipher state is a 4x4 byte matrix in
//! column-major order; the flat layout places matrix entry (col, row) at
//! index 4*col + row.
use vstd::prelude::*;
use crate::sbox::sbox_seq;
use crate::sbox::rcon_seq;
use crate::sbox::aes128_sbox;
use crate::sbox::rcon_table;

verus! {

/// Doubling in GF(2^8) modulo the AES polynomial.
pub open spec fn xtime_spec(a: u8) -> u8 {
    if a & 0x80 != 0 {
        (a << 1) ^ 0x1b
    } else {
        a << 1
    }
}

/// The substitution layer applied to every state byte.
pub open spec fn sub_bytes_spec(s: Seq<u8>) -> Seq<u8> {
    Seq::new(s.len(), |i: int| sbox_seq()[s[i] as int])
}

/// The row rotation layer: matrix entry (col, row) takes the value of entry
/// ((row + col) mod 4, row).
pub open spec fn shift_rows_spec(s: Seq<u8>) -> Seq<u8> {
    Seq::new(16, |i: int| s[4 * (((i % 4) + i / 4) % 4) + (i % 4)])
}

/// The column mixing layer.
pub open spec fn mix_columns_spec(s: Seq<u8>) -> Seq<u8> {
    Seq::new(
        16,
        |i: int|
            {
                let c = i / 4;
                let r = i % 4;
                xtime_spec(s[4 * c + r] ^ s[4 * c + ((r + 1) % 4)]) ^ s[4 * c + ((r + 1) % 4)] ^ s[4
                    * c + ((r + 2) % 4)] ^ s[4 * c + ((r + 3) % 4)]
            },
    )
}

/// The key mixing layer.
pub open spec fn add_round_key_spec(s: Seq<u8>, rk: Seq<u8>) -> Seq<u8> {
    Seq::new(16, |i: int| s[i] ^ rk[i])
}

/// One key-schedule step: derive round key r from round key r-1.
pub open spec fn next_round_key(prev: Seq<u8>, r: int) -> Seq<u8> {
    let c0 = Seq::new(
        4,
        |row: int|
            prev[row] ^ sbox_seq()[prev[12 + ((row + 1) % 4)] as int] ^ (if row == 0 {
                rcon_seq()[r]
            } else {
                0u8
            }),
    );
    let c1 = Seq::new(4, |row: int| prev[4 + row] ^ c0[row]);
    let c2 = Seq::new(4, |row: int| prev[8 + row] ^ c1[row]);
    let c3 = Seq::new(4, |row: int| prev[12 + row] ^ c2[row]);
    c0 + c1 + c2 + c3
}

/// Round key r of the key schedule.
pub open spec fn round_key(key: Seq<u8>, r: nat) -> Seq<u8>
    decreases r,
{
    if r == 0 {
        key
    } else {
        next_round_key(round_key(key, (r - 1) as nat), r as int)
    }
}

/// One middle round of the cipher.
pub open spec fn aes_round_spec(s: Seq<u8>, rk: Seq<u8>) -> Seq<u8> {
    add_round_key_spec(mix_columns_spec(shift_rows_spec(sub_bytes_spec(s))), rk)
}

/// The initial key mixing followed by the first r middle rounds.
pub open spec fn aes_middle_rounds(msg: Seq<u8>, key: Seq<u8>, r: nat) -> Seq<u8>
    decreases r,
{
    if r == 0 {
        add_round_key_spec(msg, round_key(key, 0))
    } else {
        aes_round_spec(aes_middle_rounds(msg, key, (r - 1) as nat), round_key(key, r))
    }
}

/// The full AES-128 block encryption: nine middle rounds, then the final
/// round without column mixing.
pub open spec fn aes128_encrypt_spec(key: Seq<u8>, msg: Seq<u8>) -> Seq<u8> {
    add_round_key_spec(
        shift_rows_spec(sub_bytes_spec(aes_middle_rounds(msg, key, 9))),
        round_key(key, 10),
    )
}

/// The 4x4 matrix view of a state as a sequence of column sequences.
pub open spec fn matv(m: Vec<Vec<u8>>) -> Seq<Seq<u8>> {
    m@.map_values(|v: Vec<u8>| v@)
}

/// The flat 16-byte layout of a 4x4 column-major matrix.
pub open spec fn flat16(m: Seq<Seq<u8>>) -> Seq<u8> {
    Seq::new(16, |i: int| m[i / 4][i % 4])
}

/// A well-formed 4x4 state matrix.
pub open spec fn mat_wf(m: Vec<Vec<u8>>) -> bool {
    m@.len() == 4 && forall|c: int| 0 <= c < 4 ==> (#[trigger] m@[c])@.len() == 4
}

/// Bit t of a byte.
pub open spec fn bit_of(b: u8, t: int) -> u8 {
    (b & (1u8 << t)) >> t
}

/// Doubling in GF(2^8).
pub fn mult_by_two(a: u8) -> (r: u8)
    ensures
        r == xtime_spec(a),
{
    if a & 0x80 != 0 {
        (a << 1u8) ^ 0x1b
    } else {
        a << 1u8
    }
}

/// Reshape a flat 16-byte block into the 4x4 column-major state matrix.
pub fn byte_array_to_mat(input: &Vec<u8>) -> (out: Vec<Vec<u8>>)
    requires
        input@.len() == 16,
    ensures
        mat_wf(out),
        flat16(matv(out)) == input@,
{
    let mut out: Vec<Vec<u8>> = Vec::new();
    let mut c: usize = 0;
    while c < 4
        invariant
            input@.len() == 16,
            c <= 4,
            out@.len() == c,
            forall|t: int| 0 <= t < c ==> (#[trigger] out@[t])@.len() == 4,
            forall|t: int, r: int|
                0 <= t < c && 0 <= r < 4 ==> out@[t]@[r] == input@[4 * t + r],
        decreases 4 - c,
    {
        let mut col: Vec<u8> = Vec::new();
        let mut r: usize = 0;
        while r < 4
            invariant
                input@.len() == 16,
                c < 4,
                r <= 4,
                col@.len() == r,
                forall|t: int| 0 <= t < r ==> col@[t] == input@[4 * c + t],
            decreases 4 - r,
        {
            col.push(input[4 * c + r]);
            r = r + 1;
        }
        out.push(col);
        c = c + 1;
    }
    assert(flat16(matv(out)) =~= input@);
    out
}

/// Flatten a 4x4 column-major state matrix back into a 16-byte block.
pub fn byte_mat_to_array(input: &Vec<Vec<u8>>) -> (out: Vec<u8>)
    requires
        mat_wf(*input),
    ensures
        out@ == flat16(matv(*input)),
{
    let mut out: Vec<u8> = Vec::new();
    let mut i: usize = 0;
    while i < 16
        invariant
            mat_wf(*input),
            i <= 16,
            out@.len() == i,
            forall|t: int| 0 <= t < i ==> out@[t] == matv(*input)[t / 4][t % 4],
        decreases 16 - i,
    {
        out.push(input[i / 4][i % 4]);
        i = i + 1;
    }
    assert(out@ =~= flat16(matv(*input)));
    out
}

/// Expand a 16-byte block into its 128 bits, least significant bit of each
/// byte first.
pub fn byte_array_to_bit_array(input: &Vec<u8>) -> (out: Vec<u8>)
    requires
        input@.len() == 16,
    ensures
        out@.len() == 128,
        forall|b: int, t: int|
            0 <= b < 16 && 0 <= t < 8 ==> out@[8 * b + t] == bit_of(input@[b], t),
{
    let mut out: Vec<u8> = Vec::new();
    let mut b: usize = 0;
    while b < 16
        invariant
            input@.len() == 16,
            b <= 16,
            out@.len() == 8 * b,
            forall|bb: int, t: int|
                0 <= bb < b && 0 <= t < 8 ==> out@[8 * bb + t] == bit_of(input@[bb], t),
        decreases 16 - b,
    {
        let byte = input[b];
        let mut t: usize = 0;
        while t < 8
            invariant
                input@.len() == 16,
                b < 16,
                byte == input@[b as int],
                t <= 8,
                out@.len() == 8 * b + t,
                forall|bb: int, tt: int|
                    0 <= bb < b && 0 <= tt < 8 ==> out@[8 * bb + tt] == bit_of(input@[bb], tt),
                forall|tt: int| 0 <= tt < t ==> out@[8 * (b as int) + tt] == bit_of(input@[b as int], tt),
            decreases 8 - t,
        {
            out.push((byte & (1u8 << (t as u8))) >> (t as u8));
            t = t + 1;
        }
        b = b + 1;
    }
    out
}

/// Expand a state matrix into its 128 bits.
pub fn byte_mat_to_bit_array(input: &Vec<Vec<u8>>) -> (out: Vec<u8>)
    requires
        mat_wf(*input),
    ensures
        out@.len() == 128,
        forall|b: int, t: int|
            0 <= b < 16 && 0 <= t < 8 ==> out@[8 * b + t] == bit_of(flat16(matv(*input))[b], t),
{
    let arr = byte_mat_to_array(input);
    byte_array_to_bit_array(&arr)
}

/// The AES-128 key schedule and block encryption.
pub struct Aes128Ref {
    pub key: Vec<u8>,
    pub rk_mat: Vec<Vec<Vec<u8>>>,
}

impl Aes128Ref {
    /// The stored round keys are exactly the key schedule of the stored key.
    pub open spec fn wf(&self) -> bool {
        &&& self.key@.len() == 16
        &&& self.rk_mat@.len() == 11
        &&& forall|r: int| 0 <= r < 11 ==> mat_wf(#[trigger] self.rk_mat@[r])
        &&& forall|r: int|
            0 <= r < 11 ==> flat16(matv(#[trigger] self.rk_mat@[r])) == round_key(
                self.key@,
                r as nat,
            )
    }

    /// Run the key schedule for a master key.
    pub fn new(master_key: &Vec<u8>) -> (aes: Aes128Ref)
        requires
            master_key@.len() == 16,
        ensures
            aes.wf(),
            aes.key@ == master_key@,
    {
        let mut key: Vec<u8> = Vec::new();
        let mut i: usize = 0;
        while i < 16
            invariant
                master_key@.len() == 16,
                i <= 16,
                key@.len() == i,
                forall|t: int| 0 <= t < i ==> key@[t] == master_key@[t],
            decreases 16 - i,
        {
            key.push(master_key[i]);
            i = i + 1;
        }
        assert(key@ =~= master_key@);
        let rk_mat = Aes128Ref::expand_key(&key);
        Aes128Ref { key, rk_mat }
    }

    /// Compute all eleven round keys.
    fn expand_key(key: &Vec<u8>) -> (rk_mat: Vec<Vec<Vec<u8>>>)
        requires
            key@.len() == 16,
        ensures
            rk_mat@.len() == 11,
            forall|r: int| 0 <= r < 11 ==> mat_wf(#[trigger] rk_mat@[r]),
            forall|r: int|
                0 <= r < 11 ==> flat16(matv(#[trigger] rk_mat@[r])) == round_key(key@, r as nat),
    {
        let sbox = aes128_sbox();
        let rcon = rcon_table();
        let mut rk_mat: Vec<Vec<Vec<u8>>> = Vec::new();
        let first = byte_array_to_mat(key);
        rk_mat.push(first);
        let mut prev = byte_mat_to_array(&rk_mat[0]);
        proof {
            assert(prev@ == round_key(key@, 0));
        }
        let mut r: usize = 1;
        while r < 11
            invariant
                key@.len() == 16,
                sbox@ == sbox_seq(),
                sbox@.len() == 256,
                rcon@ == rcon_seq(),
                rcon@.len() == 11,
                1 <= r <= 11,
                rk_mat@.len() == r,
                prev@ == round_key(key@, (r - 1) as nat),
                prev@.len() == 16,
                forall|t: int| 0 <= t < r ==> mat_wf(#[trigger] rk_mat@[t]),
                forall|t: int|
                    0 <= t < r ==> flat16(matv(#[trigger] rk_mat@[t])) == round_key(
                        key@,
                        t as nat,
                    ),
            decreases 11 - r,
        {
            // Column 0: previous column 0 xor the substituted-rotated last
            // column xor the round constant at byte 0.
            let mut next: Vec<u8> = Vec::new();
            let mut row: usize = 0;
            while row < 4
                invariant
                    sbox@ == sbox_seq(),
                    sbox@.len() == 256,
                    rcon@ == rcon_seq(),
                    rcon@.len() == 11,
                    1 <= r <= 10,
                    prev@.len() == 16,
                    row <= 4,
                    next@.len() == row,
                    forall|t: int|
                        0 <= t < row ==> next@[t] == (prev@[t] ^ sbox_seq()[prev@[12 + ((t + 1)
                            % 4)] as int] ^ (if t == 0 {
                            rcon_seq()[r as int]
                        } else {
                            0u8
                        })),
                decreases 4 - row,
            {
                let sub = sbox[prev[12 + ((row + 1) % 4)] as usize];
                let rc: u8 = if row == 0 {
                    rcon[r]
                } else {
                    0u8
                };
                next.push(prev[row] ^ sub ^ rc);
                row = row + 1;
            }
            // Columns 1..3: previous column xor the freshly computed column.
            let mut c: usize = 1;
            while c < 4
                invariant
                    1 <= c <= 4,
                    prev@.len() == 16,
                    next@.len() == 4 * c,
                    1 <= r <= 10,
                    sbox@ == sbox_seq(),
                    rcon@ == rcon_seq(),
                    forall|t: int|
                        0 <= t < 4 ==> next@[t] == (prev@[t] ^ sbox_seq()[prev@[12 + ((t + 1)
                            % 4)] as int] ^ (if t == 0 {
                            rcon_seq()[r as int]
                        } else {
                            0u8
                        })),
                    forall|cc: int, t: int|
                        1 <= cc < c && 0 <= t < 4 ==> (#[trigger] next@[4 * cc + t]) == (prev@[4
                            * cc + t] ^ next@[4 * (cc - 1) + t]),
                decreases 4 - c,
            {
                let mut row: usize = 0;
                while row < 4
                    invariant
                        1 <= c < 4,
                        prev@.len() == 16,
                        1 <= r <= 10,
                        sbox@ == sbox_seq(),
                        rcon@ == rcon_seq(),
                        row <= 4,
                        next@.len() == 4 * c + row,
                        forall|t: int|
                            0 <= t < 4 ==> next@[t] == (prev@[t] ^ sbox_seq()[prev@[12 + ((t + 1)
                                % 4)] as int] ^ (if t == 0 {
                                rcon_seq()[r as int]
                            } else {
                                0u8
                            })),
                        forall|cc: int, t: int|
                            1 <= cc < c && 0 <= t < 4 ==> (#[trigger] next@[4 * cc + t]) == (
                            prev@[4 * cc + t] ^ next@[4 * (cc - 1) + t]),
                        forall|t: int|
                            0 <= t < row ==> (#[trigger] next@[4 * (c as int) + t]) == (prev@[4 * (
                            c as int) + t] ^ next@[4 * (c as int - 1) + t]),
                    decreases 4 - row,
                {
                    let v = prev[4 * c + row] ^ next[4 * (c - 1) + row];
                    next.push(v);
                    row = row + 1;
                }
                c = c + 1;
            }
            proof {
                assert(next@ =~= next_round_key(prev@, r as int)) by {
                    let spec_next = next_round_key(prev@, r as int);
                    let c0 = Seq::new(
                        4,
                        |rr: int|
                            prev@[rr] ^ sbox_seq()[prev@[12 + ((rr + 1) % 4)] as int] ^ (if rr
                                == 0 {
                                rcon_seq()[r as int]
                            } else {
                                0u8
                            }),
                    );
                    let c1 = Seq::new(4, |rr: int| prev@[4 + rr] ^ c0[rr]);
                    let c2 = Seq::new(4, |rr: int| prev@[8 + rr] ^ c1[rr]);
                    let c3 = Seq::new(4, |rr: int| prev@[12 + rr] ^ c2[rr]);
                    assert(spec_next == c0 + c1 + c2 + c3);
                    assert forall|tt: int| 0 <= tt < 4 implies next@[4 * 1 + tt] == c1[tt]
                        && next@[4 * 2 + tt] == c2[tt] && next@[4 * 3 + tt] == c3[tt] by {
                        assert(next@[4 * 1 + tt] == (prev@[4 * 1 + tt] ^ next@[4 * 0 + tt]));
                        assert(next@[4 * 0 + tt] == next@[tt]);
                        assert(next@[tt] == c0[tt]);
                        assert(next@[4 * 2 + tt] == (prev@[4 * 2 + tt] ^ next@[4 * 1 + tt]));
                        assert(next@[4 * 3 + tt] == (prev@[4 * 3 + tt] ^ next@[4 * 2 + tt]));
                    }
                    assert forall|t: int| 0 <= t < 16 implies next@[t] == spec_next[t] by {
                        if t < 4 {
                            assert(next@[t] == c0[t]);
                        } else if t < 8 {
                            assert(next@[4 * 1 + (t - 4)] == c1[t - 4]);
                            assert(4 * 1 + (t - 4) == t);
                        } else if t < 12 {
                            assert(next@[4 * 2 + (t - 8)] == c2[t - 8]);
                            assert(4 * 2 + (t - 8) == t);
                        } else {
                            assert(next@[4 * 3 + (t - 12)] == c3[t - 12]);
                            assert(4 * 3 + (t - 12) == t);
                        }
                    }
                }
            }
            let mat = byte_array_to_mat(&next);
            rk_mat.push(mat);
            prev = next;
            r = r + 1;
        }
        rk_mat
    }

    /// Return the round keys as flat 16-byte arrays.
    pub fn get_round_keys(&self) -> (out: Vec<Vec<u8>>)
        requires
            self.wf(),
        ensures
            out@.len() == 11,
            forall|r: int| 0 <= r < 11 ==> (#[trigger] out@[r])@ == round_key(self.key@, r as nat),
    {
        let mut out: Vec<Vec<u8>> = Vec::new();
        let mut r: usize = 0;
        while r < 11
            invariant
                self.wf(),
                r <= 11,
                out@.len() == r,
                forall|t: int|
                    0 <= t < r ==> (#[trigger] out@[t])@ == round_key(self.key@, t as nat),
            decreases 11 - r,
        {
            let arr = byte_mat_to_array(&self.rk_mat[r]);
            out.push(arr);
            r = r + 1;
        }
        out
    }

    /// Mix round key `round` into the state.
    pub fn add_round_key(&self, state: &mut Vec<Vec<u8>>, round: usize)
        requires
            self.wf(),
            mat_wf(*old(state)),
            round < 11,
        ensures
            mat_wf(*final(state)),
            flat16(matv(*final(state))) == add_round_key_spec(
                flat16(matv(*old(state))),
                round_key(self.key@, round as nat),
            ),
    {
        let rk = byte_mat_to_array(&self.rk_mat[round]);
        proof {
            assert(rk@ == round_key(self.key@, round as nat));
        }
        let mut fresh: Vec<Vec<u8>> = Vec::new();
        let mut c: usize = 0;
        while c < 4
            invariant
                mat_wf(*state),
                rk@.len() == 16,
                c <= 4,
                fresh@.len() == c,
                forall|t: int| 0 <= t < c ==> (#[trigger] fresh@[t])@.len() == 4,
                forall|cc: int, t: int|
                    0 <= cc < c && 0 <= t < 4 ==> fresh@[cc]@[t] == (matv(*state)[cc][t] ^ rk@[4
                        * cc + t]),
            decreases 4 - c,
        {
            let mut col: Vec<u8> = Vec::new();
            let mut t: usize = 0;
            while t < 4
                invariant
                    mat_wf(*state),
                    rk@.len() == 16,
                    c < 4,
                    t <= 4,
                    col@.len() == t,
                    forall|tt: int|
                        0 <= tt < t ==> col@[tt] == (matv(*state)[c as int][tt] ^ rk@[4 * (
                        c as int) + tt]),
                decreases 4 - t,
            {
                col.push(state[c][t] ^ rk[4 * c + t]);
                t = t + 1;
            }
            fresh.push(col);
            c = c + 1;
        }
        let ghost pre = *state;
        *state = fresh;
        proof {
            assert(flat16(matv(*state)) =~= add_round_key_spec(
                flat16(matv(pre)),
                round_key(self.key@, round as nat),
            ));
        }
    }

    /// Substitute every state byte through the substitution box.
    pub fn sub_bytes(&self, state: &mut Vec<Vec<u8>>)
        requires
            mat_wf(*old(state)),
        ensures
            mat_wf(*final(state)),
            flat16(matv(*final(state))) == sub_bytes_spec(flat16(matv(*old(state)))),
    {
        let sbox = aes128_sbox();
        let mut fresh: Vec<Vec<u8>> = Vec::new();
        let mut c: usize = 0;
        while c < 4
            invariant
                mat_wf(*state),
                sbox@ == sbox_seq(),
                sbox@.len() == 256,
                c <= 4,
                fresh@.len() == c,
                forall|t: int| 0 <= t < c ==> (#[trigger] fresh@[t])@.len() == 4,
                forall|cc: int, t: int|
                    0 <= cc < c && 0 <= t < 4 ==> fresh@[cc]@[t] == sbox_seq()[matv(
                        *state,
                    )[cc][t] as int],
            decreases 4 - c,
        {
            let mut col: Vec<u8> = Vec::new();
            let mut t: usize = 0;
            while t < 4
                invariant
                    mat_wf(*state),
                    sbox@ == sbox_seq(),
                    sbox@.len() == 256,
                    c < 4,
                    t <= 4,
                    col@.len() == t,
                    forall|tt: int|
                        0 <= tt < t ==> col@[tt] == sbox_seq()[matv(*state)[c as int][tt] as int],
                decreases 4 - t,
            {
                col.push(sbox[state[c][t] as usize]);
                t = t + 1;
            }
            fresh.push(col);
            c = c + 1;
        }
        let ghost pre = *state;
        *state = fresh;
        proof {
            assert(flat16(matv(*state)) =~= sub_bytes_spec(flat16(matv(pre))));
        }
    }

    /// Rotate row r of the state left by r positions.
    pub fn shift_rows(&self, state: &mut Vec<Vec<u8>>)
        requires
            mat_wf(*old(state)),
        ensures
            mat_wf(*final(state)),
            flat16(matv(*final(state))) == shift_rows_spec(flat16(matv(*old(state)))),
    {
        let mut fresh: Vec<Vec<u8>> = Vec::new();
        let mut c: usize = 0;
        while c < 4
            invariant
                mat_wf(*state),
                c <= 4,
                fresh@.len() == c,
                forall|t: int| 0 <= t < c ==> (#[trigger] fresh@[t])@.len() == 4,
                forall|cc: int, t: int|
                    0 <= cc < c && 0 <= t < 4 ==> fresh@[cc]@[t] == matv(*state)[(t + cc)
                        % 4][t],
            decreases 4 - c,
        {
            let mut col: Vec<u8> = Vec::new();
            let mut t: usize = 0;
            while t < 4
                invariant
                    mat_wf(*state),
                    c < 4,
                    t <= 4,
                    col@.len() == t,
                    forall|tt: int|
                        0 <= tt < t ==> col@[tt] == matv(*state)[(tt + c as int) % 4][tt],
                decreases 4 - t,
            {
                col.push(state[(t + c) % 4][t]);
                t = t + 1;
            }
            fresh.push(col);
            c = c + 1;
        }
        let ghost pre = *state;
        *state = fresh;
        proof {
            assert(flat16(matv(*state)) =~= shift_rows_spec(flat16(matv(pre))));
        }
    }

    /// Mix each column through the AES linear map.
    pub fn mix_columns(&self, state: &mut Vec<Vec<u8>>)
        requires
            mat_wf(*old(state)),
        ensures
            mat_wf(*final(state)),
            flat16(matv(*final(state))) == mix_columns_spec(flat16(matv(*old(state)))),
    {
        let mut fresh: Vec<Vec<u8>> = Vec::new();
        let mut c: usize = 0;
        while c < 4
            invariant
                mat_wf(*state),
                c <= 4,
                fresh@.len() == c,
                forall|t: int| 0 <= t < c ==> (#[trigger] fresh@[t])@.len() == 4,
                forall|cc: int, t: int|
                    0 <= cc < c && 0 <= t < 4 ==> fresh@[cc]@[t] == (xtime_spec(
                        matv(*state)[cc][t] ^ matv(*state)[cc][(t + 1) % 4],
                    ) ^ matv(*state)[cc][(t + 1) % 4] ^ matv(*state)[cc][(t + 2) % 4] ^ matv(
                        *state,
                    )[cc][(t + 3) % 4]),
            decreases 4 - c,
        {
            let mut col: Vec<u8> = Vec::new();
            let mut t: usize = 0;
            while t < 4
                invariant
                    mat_wf(*state),
                    c < 4,
                    t <= 4,
                    col@.len() == t,
                    forall|tt: int|
                        0 <= tt < t ==> col@[tt] == (xtime_spec(
                            matv(*state)[c as int][tt] ^ matv(*state)[c as int][(tt + 1) % 4],
                        ) ^ matv(*state)[c as int][(tt + 1) % 4] ^ matv(*state)[c as int][(tt + 2)
                            % 4] ^ matv(*state)[c as int][(tt + 3) % 4]),
                decreases 4 - t,
            {
                let a0 = state[c][t];
                let a1 = state[c][(t + 1) % 4];
                let a2 = state[c][(t + 2) % 4];
                let a3 = state[c][(t + 3) % 4];
                let v = mult_by_two(a0 ^ a1) ^ a1 ^ a2 ^ a3;
                col.push(v);
                t = t + 1;
            }
            fresh.push(col);
            c = c + 1;
        }
        let ghost pre = *state;
        *state = fresh;
        proof {
            assert(flat16(matv(*state)) =~= mix_columns_spec(flat16(matv(pre))));
        }
    }

    /// Encrypt one 16-byte block.
    pub fn encrypt_block(&self, message: &Vec<u8>) -> (out: Vec<u8>)
        requires
            self.wf(),
            message@.len() == 16,
        ensures
            out@ == aes128_encrypt_spec(self.key@, message@),
    {
        let mut state = byte_array_to_mat(message);
        self.add_round_key(&mut state, 0);
        proof {
            assert(flat16(matv(state)) == aes_middle_rounds(message@, self.key@, 0));
        }
        let mut r: usize = 1;
        while r < 10
            invariant
                self.wf(),
                message@.len() == 16,
                1 <= r <= 10,
                mat_wf(state),
                flat16(matv(state)) == aes_middle_rounds(message@, self.key@, (r - 1) as nat),
            decreases 10 - r,
        {
            self.sub_bytes(&mut state);
            self.shift_rows(&mut state);
            self.mix_columns(&mut state);
            self.add_round_key(&mut state, r);
            r = r + 1;
        }
        self.sub_bytes(&mut state);
        self.shift_rows(&mut state);
        self.add_round_key(&mut state, 10);
        byte_mat_to_array(&state)
    }
}

} // verus!
