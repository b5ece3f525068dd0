//! The stable binary encoding of the whole process state, used across a
//! planned restart.  The layout is word-oriented: the state is first laid
//! out as a sequence of 64-bit words (a version tag, the counter, then
//! every user record with length-prefixed strings, the fixed-size weight
//! vectors and the length-prefixed histories), and the words are then
//! written as little-endian bytes.  Decoding is the exact inverse; a blob
//! that does not decode to a valid state is rejected as corrupt.

use vstd::prelude::*;

use vstd::bytes::{
    lemma_auto_spec_u64_to_from_le_bytes, spec_u64_from_le_bytes, spec_u64_to_le_bytes,
    u64_from_le_bytes, u64_to_le_bytes,
};
use vstd::slice::slice_subrange;
use vstd::string::StrSliceExecFns;
use crate::state::{ids_unique, models_of, user_model, ProcessState, StateModel, UserModel};
use crate::user::{hist_wf, User, EMOTION_DIM, SPIRAL_DIM};

verus! {

/// Version tag of the encoding; the first word of every blob.
pub const STATE_VERSION: u64 = 1;

// ---------------------------------------------------------------------
// Word-level layout (specification)
// ---------------------------------------------------------------------

pub open spec fn enc_chars(cs: Seq<char>) -> Seq<u64>
    decreases cs.len(),
{
    if cs.len() == 0 {
        Seq::empty()
    } else {
        seq![cs[0] as u32 as u64] + enc_chars(cs.drop_first())
    }
}

pub open spec fn enc_string(cs: Seq<char>) -> Seq<u64> {
    seq![cs.len() as u64] + enc_chars(cs)
}

pub open spec fn enc_i64s(vs: Seq<i64>) -> Seq<u64>
    decreases vs.len(),
{
    if vs.len() == 0 {
        Seq::empty()
    } else {
        seq![vs[0] as u64] + enc_i64s(vs.drop_first())
    }
}

pub open spec fn enc_vec(vs: Seq<i64>) -> Seq<u64> {
    seq![vs.len() as u64] + enc_i64s(vs)
}

pub open spec fn enc_vecs(h: Seq<Seq<i64>>) -> Seq<u64>
    decreases h.len(),
{
    if h.len() == 0 {
        Seq::empty()
    } else {
        enc_vec(h[0]) + enc_vecs(h.drop_first())
    }
}

pub open spec fn enc_hist(h: Seq<Seq<i64>>) -> Seq<u64> {
    seq![h.len() as u64] + enc_vecs(h)
}

pub open spec fn enc_user(u: UserModel) -> Seq<u64> {
    enc_string(u.id) + enc_string(u.email) + enc_string(u.name) + enc_string(u.telegram)
        + enc_string(u.instegram) + enc_string(u.x_account) + enc_vec(u.emotion) + enc_vec(u.spiral)
        + enc_hist(u.emotion_history) + enc_hist(u.spiral_history)
}

pub open spec fn enc_users(us: Seq<UserModel>) -> Seq<u64>
    decreases us.len(),
{
    if us.len() == 0 {
        Seq::empty()
    } else {
        enc_user(us[0]) + enc_users(us.drop_first())
    }
}

pub open spec fn enc_state(m: StateModel) -> Seq<u64> {
    seq![STATE_VERSION, m.counter as u64, m.users.len() as u64] + enc_users(m.users)
}

// ---------------------------------------------------------------------
// Word-level parsing (specification): each parser consumes a prefix of
// the word sequence and yields the parsed value and the rest.
// ---------------------------------------------------------------------

pub open spec fn p_word(s: Seq<u64>) -> Option<(u64, Seq<u64>)> {
    if s.len() >= 1 {
        Some((s[0], s.drop_first()))
    } else {
        None
    }
}

/// The code point of a character.
pub open spec fn code_of(c: char) -> u32 {
    c as u32
}

/// `w` is the code point of some character.
pub open spec fn char_code(w: u64) -> bool {
    exists|c: char| code_of(c) == w
}

pub open spec fn char_of(w: u64) -> char {
    choose|c: char| code_of(c) == w
}

pub open spec fn p_char(s: Seq<u64>) -> Option<(char, Seq<u64>)> {
    match p_word(s) {
        Some((w, r)) => if char_code(w) {
            Some((char_of(w), r))
        } else {
            None
        },
        None => None,
    }
}

pub open spec fn p_chars(s: Seq<u64>, n: nat) -> Option<(Seq<char>, Seq<u64>)>
    decreases n,
{
    if n == 0 {
        Some((Seq::empty(), s))
    } else {
        match p_char(s) {
            Some((c, r)) => match p_chars(r, (n - 1) as nat) {
                Some((cs, r2)) => Some((seq![c] + cs, r2)),
                None => None,
            },
            None => None,
        }
    }
}

pub open spec fn p_string(s: Seq<u64>) -> Option<(Seq<char>, Seq<u64>)> {
    match p_word(s) {
        Some((n, r)) => p_chars(r, n as nat),
        None => None,
    }
}

pub open spec fn p_i64s(s: Seq<u64>, n: nat) -> Option<(Seq<i64>, Seq<u64>)>
    decreases n,
{
    if n == 0 {
        Some((Seq::empty(), s))
    } else {
        match p_word(s) {
            Some((w, r)) => match p_i64s(r, (n - 1) as nat) {
                Some((vs, r2)) => Some((seq![w as i64] + vs, r2)),
                None => None,
            },
            None => None,
        }
    }
}

pub open spec fn p_vec(s: Seq<u64>, dim: nat) -> Option<(Seq<i64>, Seq<u64>)> {
    match p_word(s) {
        Some((n, r)) => if n == dim {
            p_i64s(r, dim)
        } else {
            None
        },
        None => None,
    }
}

pub open spec fn p_vecs(s: Seq<u64>, n: nat, dim: nat) -> Option<(Seq<Seq<i64>>, Seq<u64>)>
    decreases n,
{
    if n == 0 {
        Some((Seq::empty(), s))
    } else {
        match p_vec(s, dim) {
            Some((v, r)) => match p_vecs(r, (n - 1) as nat, dim) {
                Some((h, r2)) => Some((seq![v] + h, r2)),
                None => None,
            },
            None => None,
        }
    }
}

pub open spec fn p_hist(s: Seq<u64>, dim: nat) -> Option<(Seq<Seq<i64>>, Seq<u64>)> {
    match p_word(s) {
        Some((n, r)) => p_vecs(r, n as nat, dim),
        None => None,
    }
}

pub open spec fn p_user(s: Seq<u64>) -> Option<(UserModel, Seq<u64>)> {
    match p_string(s) {
        None => None,
        Some((id, s1)) => match p_string(s1) {
            None => None,
            Some((email, s2)) => match p_string(s2) {
                None => None,
                Some((name, s3)) => match p_string(s3) {
                    None => None,
                    Some((telegram, s4)) => match p_string(s4) {
                        None => None,
                        Some((instegram, s5)) => match p_string(s5) {
                            None => None,
                            Some((x_account, s6)) => match p_vec(s6, EMOTION_DIM as nat) {
                                None => None,
                                Some((emotion, s7)) => match p_vec(s7, SPIRAL_DIM as nat) {
                                    None => None,
                                    Some((spiral, s8)) => match p_hist(s8, EMOTION_DIM as nat) {
                                        None => None,
                                        Some((emotion_history, s9)) => match p_hist(
                                            s9,
                                            SPIRAL_DIM as nat,
                                        ) {
                                            None => None,
                                            Some((spiral_history, s10)) => Some(
                                                (
                                                    UserModel {
                                                        id,
                                                        email,
                                                        name,
                                                        telegram,
                                                        instegram,
                                                        x_account,
                                                        emotion,
                                                        spiral,
                                                        emotion_history,
                                                        spiral_history,
                                                    },
                                                    s10,
                                                ),
                                            ),
                                        },
                                    },
                                },
                            },
                        },
                    },
                },
            },
        },
    }
}

pub open spec fn p_users(s: Seq<u64>, n: nat) -> Option<(Seq<UserModel>, Seq<u64>)>
    decreases n,
{
    if n == 0 {
        Some((Seq::empty(), s))
    } else {
        match p_user(s) {
            Some((u, r)) => match p_users(r, (n - 1) as nat) {
                Some((us, r2)) => Some((seq![u] + us, r2)),
                None => None,
            },
            None => None,
        }
    }
}

pub open spec fn p_state(s: Seq<u64>) -> Option<(StateModel, Seq<u64>)> {
    match p_word(s) {
        None => None,
        Some((ver, s1)) => if ver != STATE_VERSION {
            None
        } else {
            match p_word(s1) {
                None => None,
                Some((c, s2)) => if c > u32::MAX {
                    None
                } else {
                    match p_word(s2) {
                        None => None,
                        Some((n, s3)) => match p_users(s3, n as nat) {
                            None => None,
                            Some((users, s4)) => Some(
                                (StateModel { counter: c as u32, users }, s4),
                            ),
                        },
                    }
                },
            }
        },
    }
}

// ---------------------------------------------------------------------
// Byte layer (specification)
// ---------------------------------------------------------------------

pub open spec fn words_to_bytes(ws: Seq<u64>) -> Seq<u8>
    decreases ws.len(),
{
    if ws.len() == 0 {
        Seq::empty()
    } else {
        spec_u64_to_le_bytes(ws[0]) + words_to_bytes(ws.drop_first())
    }
}

pub open spec fn bytes_to_words(b: Seq<u8>) -> Seq<u64>
    decreases b.len(),
{
    if b.len() < 8 {
        Seq::empty()
    } else {
        seq![spec_u64_from_le_bytes(b.take(8))] + bytes_to_words(b.skip(8))
    }
}

/// The durable blob of a state model.
pub open spec fn spec_encode(m: StateModel) -> Seq<u8> {
    words_to_bytes(enc_state(m))
}

/// The state model a blob decodes to, if any: the words of the blob must
/// parse completely as one state whose user ids are pairwise distinct.
pub open spec fn spec_decode(b: Seq<u8>) -> Option<StateModel> {
    if b.len() % 8 != 0 {
        None
    } else {
        match p_state(bytes_to_words(b)) {
            Some((m, rest)) => if rest.len() == 0 && ids_unique(m.users) {
                Some(m)
            } else {
                None
            },
            None => None,
        }
    }
}

// ---------------------------------------------------------------------
// Trusted declarations for the two std operations the decoder needs and
// vstd does not specify.
// ---------------------------------------------------------------------

/// Relies on char::from_u32: it returns the character with the given
/// code point exactly when the value is a Unicode scalar value, that is,
/// when such a character exists.
pub assume_specification[ char::from_u32 ](x: u32) -> (r: Option<char>)
    ensures
        match r {
            Some(c) => c as u32 == x,
            None => forall|c: char| code_of(c) != x,
        },
;

/// Relies on String::push: it appends the given character to the end of
/// the string.
pub assume_specification[ String::push ](s: &mut String, c: char)
    ensures
        final(s)@ == old(s)@.push(c),
;

// ---------------------------------------------------------------------
// Round trip: parsing an encoding yields the encoded value
// ---------------------------------------------------------------------

pub proof fn lemma_rt_word(x: u64, rest: Seq<u64>)
    ensures
        p_word(seq![x] + rest) == Some((x, rest)),
{
    assert((seq![x] + rest).drop_first() =~= rest);
}

pub proof fn lemma_rt_char(c: char, rest: Seq<u64>)
    ensures
        p_char(seq![c as u32 as u64] + rest) == Some((c, rest)),
{
    let w: u64 = c as u32 as u64;
    lemma_rt_word(w, rest);
    assert(char_code(w)) by {
        assert(code_of(c) == w);
    }
    assert(char_of(w) as u32 == w);
    assert(char_of(w) == c);
}

pub proof fn lemma_rt_chars(cs: Seq<char>, rest: Seq<u64>)
    ensures
        p_chars(enc_chars(cs) + rest, cs.len()) == Some((cs, rest)),
    decreases cs.len(),
{
    if cs.len() == 0 {
        assert(enc_chars(cs) + rest =~= rest);
        assert(p_chars(rest, 0) == Some((Seq::<char>::empty(), rest)));
        assert(cs =~= Seq::<char>::empty());
    } else {
        let tail = cs.drop_first();
        let w: u64 = cs[0] as u32 as u64;
        assert(enc_chars(cs) + rest =~= seq![w] + (enc_chars(tail) + rest));
        lemma_rt_char(cs[0], enc_chars(tail) + rest);
        lemma_rt_chars(tail, rest);
        assert(seq![cs[0]] + tail =~= cs);
    }
}

pub proof fn lemma_rt_string(cs: Seq<char>, rest: Seq<u64>)
    requires
        cs.len() <= u64::MAX,
    ensures
        p_string(enc_string(cs) + rest) == Some((cs, rest)),
{
    let n: u64 = cs.len() as u64;
    assert(enc_string(cs) + rest =~= seq![n] + (enc_chars(cs) + rest));
    lemma_rt_word(n, enc_chars(cs) + rest);
    lemma_rt_chars(cs, rest);
}

proof fn lemma_i64_cast_rt(x: i64)
    ensures
        x as u64 as i64 == x,
{
    assert(x as u64 as i64 == x) by (bit_vector);
}

pub proof fn lemma_rt_i64s(vs: Seq<i64>, rest: Seq<u64>)
    ensures
        p_i64s(enc_i64s(vs) + rest, vs.len()) == Some((vs, rest)),
    decreases vs.len(),
{
    if vs.len() == 0 {
        assert(enc_i64s(vs) + rest =~= rest);
        assert(vs =~= Seq::<i64>::empty());
    } else {
        let tail = vs.drop_first();
        let w: u64 = vs[0] as u64;
        assert(enc_i64s(vs) + rest =~= seq![w] + (enc_i64s(tail) + rest));
        lemma_rt_word(w, enc_i64s(tail) + rest);
        lemma_i64_cast_rt(vs[0]);
        lemma_rt_i64s(tail, rest);
        assert(seq![vs[0]] + tail =~= vs);
    }
}

pub proof fn lemma_rt_vec(vs: Seq<i64>, rest: Seq<u64>)
    requires
        vs.len() <= u64::MAX,
    ensures
        p_vec(enc_vec(vs) + rest, vs.len()) == Some((vs, rest)),
{
    let n: u64 = vs.len() as u64;
    assert(enc_vec(vs) + rest =~= seq![n] + (enc_i64s(vs) + rest));
    lemma_rt_word(n, enc_i64s(vs) + rest);
    lemma_rt_i64s(vs, rest);
}

pub proof fn lemma_rt_vecs(h: Seq<Seq<i64>>, rest: Seq<u64>, dim: nat)
    requires
        hist_wf(h, dim as int),
        dim <= u64::MAX,
    ensures
        p_vecs(enc_vecs(h) + rest, h.len(), dim) == Some((h, rest)),
    decreases h.len(),
{
    if h.len() == 0 {
        assert(enc_vecs(h) + rest =~= rest);
        assert(h =~= Seq::<Seq<i64>>::empty());
    } else {
        let tail = h.drop_first();
        assert(enc_vecs(h) + rest =~= enc_vec(h[0]) + (enc_vecs(tail) + rest));
        assert(h[0].len() == dim);
        lemma_rt_vec(h[0], enc_vecs(tail) + rest);
        assert(hist_wf(tail, dim as int)) by {
            assert(forall|i: int| 0 <= i < tail.len() ==> tail[i] == h[i + 1]);
        }
        lemma_rt_vecs(tail, rest, dim);
        assert(seq![h[0]] + tail =~= h);
    }
}

pub proof fn lemma_rt_hist(h: Seq<Seq<i64>>, rest: Seq<u64>, dim: nat)
    requires
        hist_wf(h, dim as int),
        h.len() <= u64::MAX,
        dim <= u64::MAX,
    ensures
        p_hist(enc_hist(h) + rest, dim) == Some((h, rest)),
{
    let n: u64 = h.len() as u64;
    assert(enc_hist(h) + rest =~= seq![n] + (enc_vecs(h) + rest));
    lemma_rt_word(n, enc_vecs(h) + rest);
    lemma_rt_vecs(h, rest, dim);
}

pub proof fn lemma_rt_user(u: UserModel, rest: Seq<u64>)
    requires
        u.wf(),
        u.bounded(),
    ensures
        p_user(enc_user(u) + rest) == Some((u, rest)),
{
    let t10 = rest;
    let t9 = enc_hist(u.spiral_history) + t10;
    let t8 = enc_hist(u.emotion_history) + t9;
    let t7 = enc_vec(u.spiral) + t8;
    let t6 = enc_vec(u.emotion) + t7;
    let t5 = enc_string(u.x_account) + t6;
    let t4 = enc_string(u.instegram) + t5;
    let t3 = enc_string(u.telegram) + t4;
    let t2 = enc_string(u.name) + t3;
    let t1 = enc_string(u.email) + t2;
    assert(enc_user(u) + rest =~= enc_string(u.id) + t1);
    lemma_rt_string(u.id, t1);
    lemma_rt_string(u.email, t2);
    lemma_rt_string(u.name, t3);
    lemma_rt_string(u.telegram, t4);
    lemma_rt_string(u.instegram, t5);
    lemma_rt_string(u.x_account, t6);
    lemma_rt_vec(u.emotion, t7);
    lemma_rt_vec(u.spiral, t8);
    lemma_rt_hist(u.emotion_history, t9, EMOTION_DIM as nat);
    lemma_rt_hist(u.spiral_history, t10, SPIRAL_DIM as nat);
}

pub proof fn lemma_rt_users(us: Seq<UserModel>, rest: Seq<u64>)
    requires
        forall|i: int| 0 <= i < us.len() ==> (#[trigger] us[i]).wf(),
        forall|i: int| 0 <= i < us.len() ==> (#[trigger] us[i]).bounded(),
    ensures
        p_users(enc_users(us) + rest, us.len()) == Some((us, rest)),
    decreases us.len(),
{
    if us.len() == 0 {
        assert(enc_users(us) + rest =~= rest);
        assert(us =~= Seq::<UserModel>::empty());
    } else {
        let tail = us.drop_first();
        assert(enc_users(us) + rest =~= enc_user(us[0]) + (enc_users(tail) + rest));
        lemma_rt_user(us[0], enc_users(tail) + rest);
        assert(forall|i: int| 0 <= i < tail.len() ==> tail[i] == us[i + 1]);
        lemma_rt_users(tail, rest);
        assert(seq![us[0]] + tail =~= us);
    }
}

pub proof fn lemma_rt_state(m: StateModel, rest: Seq<u64>)
    requires
        m.wf(),
        m.bounded(),
    ensures
        p_state(enc_state(m) + rest) == Some((m, rest)),
{
    let t3 = enc_users(m.users) + rest;
    let c: u64 = m.counter as u64;
    let n: u64 = m.users.len() as u64;
    assert(enc_state(m) + rest =~= seq![STATE_VERSION] + (seq![c] + (seq![n] + t3)));
    lemma_rt_word(STATE_VERSION, seq![c] + (seq![n] + t3));
    lemma_rt_word(c, seq![n] + t3);
    lemma_rt_word(n, t3);
    lemma_rt_users(m.users, rest);
}

pub proof fn lemma_rt_words(ws: Seq<u64>)
    ensures
        bytes_to_words(words_to_bytes(ws)) == ws,
        words_to_bytes(ws).len() == 8 * ws.len(),
    decreases ws.len(),
{
    lemma_auto_spec_u64_to_from_le_bytes();
    if ws.len() == 0 {
        assert(bytes_to_words(words_to_bytes(ws)) =~= ws);
    } else {
        let head = spec_u64_to_le_bytes(ws[0]);
        let tail_bytes = words_to_bytes(ws.drop_first());
        let b = words_to_bytes(ws);
        lemma_rt_words(ws.drop_first());
        assert(b =~= head + tail_bytes);
        assert(b.take(8) =~= head);
        assert(b.skip(8) =~= tail_bytes);
        assert(bytes_to_words(b) == seq![ws[0]] + bytes_to_words(tail_bytes));
        assert(seq![ws[0]] + ws.drop_first() =~= ws);
    }
}

/// Round trip: decoding the encoding of a well-formed state model yields
/// exactly that model, every field of every user record included.
pub proof fn lemma_round_trip(m: StateModel)
    requires
        m.wf(),
        m.bounded(),
    ensures
        spec_decode(spec_encode(m)) == Some(m),
{
    let ws = enc_state(m);
    lemma_rt_words(ws);
    lemma_rt_state(m, Seq::empty());
    assert(ws + Seq::<u64>::empty() =~= ws);
    let b = spec_encode(m);
    assert(b.len() % 8 == 0) by (nonlinear_arith)
        requires b.len() == 8 * ws.len();
}

// ---------------------------------------------------------------------
// Encoding (executable)
// ---------------------------------------------------------------------

fn e_chars(out: &mut Vec<u64>, s: &str, i: usize)
    requires
        i as nat <= s@.len(),
    ensures
        final(out)@ == old(out)@ + enc_chars(s@.skip(i as int)),
    decreases s@.len() - i as nat,
{
    let len = s.unicode_len();
    if i < len {
        let c = s.get_char(i);
        out.push(c as u32 as u64);
        e_chars(out, s, i + 1);
        proof {
            let sk = s@.skip(i as int);
            assert(sk.drop_first() =~= s@.skip(i as int + 1));
            assert(sk[0] == s@[i as int]);
            assert(old(out)@ + seq![s@[i as int] as u32 as u64] + enc_chars(
                s@.skip(i as int + 1),
            ) =~= old(out)@ + enc_chars(sk));
        }
    } else {
        proof {
            assert(s@.skip(i as int) =~= Seq::<char>::empty());
            assert(old(out)@ + enc_chars(Seq::<char>::empty()) =~= old(out)@);
        }
    }
}

fn e_string(out: &mut Vec<u64>, s: &String)
    ensures
        final(out)@ == old(out)@ + enc_string(s@),
        s@.len() <= u64::MAX,
{
    let len = s.as_str().unicode_len();
    out.push(len as u64);
    e_chars(out, s.as_str(), 0);
    proof {
        assert(s@.skip(0) =~= s@);
        assert(old(out)@ + seq![s@.len() as u64] + enc_chars(s@) =~= old(out)@ + enc_string(s@));
    }
}

fn e_i64s(out: &mut Vec<u64>, v: &Vec<i64>, i: usize)
    requires
        i as nat <= v@.len(),
    ensures
        final(out)@ == old(out)@ + enc_i64s(v@.skip(i as int)),
    decreases v@.len() - i as nat,
{
    if i < v.len() {
        out.push(v[i] as u64);
        e_i64s(out, v, i + 1);
        proof {
            let sk = v@.skip(i as int);
            assert(sk.drop_first() =~= v@.skip(i as int + 1));
            assert(sk[0] == v@[i as int]);
            assert(old(out)@ + seq![v@[i as int] as u64] + enc_i64s(v@.skip(i as int + 1)) =~= old(
                out,
            )@ + enc_i64s(sk));
        }
    } else {
        proof {
            assert(v@.skip(i as int) =~= Seq::<i64>::empty());
            assert(old(out)@ + enc_i64s(Seq::<i64>::empty()) =~= old(out)@);
        }
    }
}

fn e_vec(out: &mut Vec<u64>, v: &Vec<i64>)
    ensures
        final(out)@ == old(out)@ + enc_vec(v@),
        v@.len() <= u64::MAX,
{
    out.push(v.len() as u64);
    e_i64s(out, v, 0);
    proof {
        assert(v@.skip(0) =~= v@);
        assert(old(out)@ + seq![v@.len() as u64] + enc_i64s(v@) =~= old(out)@ + enc_vec(v@));
    }
}

fn e_vecs(out: &mut Vec<u64>, h: &Vec<Vec<i64>>, i: usize)
    requires
        i as nat <= h@.len(),
    ensures
        final(out)@ == old(out)@ + enc_vecs(h.deep_view().skip(i as int)),
    decreases h@.len() - i as nat,
{
    if i < h.len() {
        e_vec(out, &h[i]);
        e_vecs(out, h, i + 1);
        proof {
            let dv = h.deep_view();
            assert(dv[i as int] == h@[i as int]@);
            assert(dv.skip(i as int).drop_first() =~= dv.skip(i as int + 1));
            assert(dv.skip(i as int)[0] == dv[i as int]);
            assert(old(out)@ + enc_vec(h@[i as int]@) + enc_vecs(dv.skip(i as int + 1)) =~= old(
                out,
            )@ + enc_vecs(dv.skip(i as int)));
        }
    } else {
        proof {
            assert(h.deep_view().skip(i as int) =~= Seq::<Seq<i64>>::empty());
            assert(old(out)@ + enc_vecs(Seq::<Seq<i64>>::empty()) =~= old(out)@);
        }
    }
}

fn e_hist(out: &mut Vec<u64>, h: &Vec<Vec<i64>>)
    ensures
        final(out)@ == old(out)@ + enc_hist(h.deep_view()),
        h.deep_view().len() <= u64::MAX,
{
    out.push(h.len() as u64);
    e_vecs(out, h, 0);
    proof {
        let dv = h.deep_view();
        assert(dv.len() == h@.len());
        assert(dv.skip(0) =~= dv);
        assert(old(out)@ + seq![dv.len() as u64] + enc_vecs(dv) =~= old(out)@ + enc_hist(dv));
    }
}

fn e_user(out: &mut Vec<u64>, u: &User)
    ensures
        final(out)@ == old(out)@ + enc_user(user_model(*u)),
        user_model(*u).bounded(),
{
    e_string(out, &u.id);
    e_string(out, &u.email);
    e_string(out, &u.name);
    e_string(out, &u.telegram);
    e_string(out, &u.instegram);
    e_string(out, &u.x_account);
    e_vec(out, &u.current_emotion);
    e_vec(out, &u.current_spiral);
    e_hist(out, &u.emotion_history);
    e_hist(out, &u.spiral_history);
    proof {
        assert(out@ =~= old(out)@ + enc_user(user_model(*u)));
    }
}

fn e_users(out: &mut Vec<u64>, us: &Vec<User>, i: usize)
    requires
        i as nat <= us@.len(),
    ensures
        final(out)@ == old(out)@ + enc_users(models_of(us@).skip(i as int)),
        forall|j: int|
            i as int <= j < us@.len() ==> (#[trigger] models_of(us@)[j]).bounded(),
    decreases us@.len() - i as nat,
{
    if i < us.len() {
        e_user(out, &us[i]);
        e_users(out, us, i + 1);
        proof {
            let ms = models_of(us@);
            assert(ms[i as int] == user_model(us@[i as int]));
            assert(ms.skip(i as int).drop_first() =~= ms.skip(i as int + 1));
            assert(ms.skip(i as int)[0] == ms[i as int]);
            assert(old(out)@ + enc_user(user_model(us@[i as int])) + enc_users(
                ms.skip(i as int + 1),
            ) =~= old(out)@ + enc_users(ms.skip(i as int)));
        }
    } else {
        proof {
            assert(models_of(us@).skip(i as int) =~= Seq::<UserModel>::empty());
            assert(old(out)@ + enc_users(Seq::<UserModel>::empty()) =~= old(out)@);
        }
    }
}

fn words_to_bytes_exec(ws: &Vec<u64>, i: usize, acc: Vec<u8>) -> (r: Vec<u8>)
    requires
        i as nat <= ws@.len(),
    ensures
        r@ == acc@ + words_to_bytes(ws@.skip(i as int)),
    decreases ws@.len() - i as nat,
{
    if i < ws.len() {
        let mut bytes = u64_to_le_bytes(ws[i]);
        let mut acc2 = acc;
        acc2.append(&mut bytes);
        let r = words_to_bytes_exec(ws, i + 1, acc2);
        proof {
            let sk = ws@.skip(i as int);
            assert(sk.drop_first() =~= ws@.skip(i as int + 1));
            assert(sk[0] == ws@[i as int]);
            assert(acc@ + spec_u64_to_le_bytes(ws@[i as int]) + words_to_bytes(
                ws@.skip(i as int + 1),
            ) =~= acc@ + words_to_bytes(sk));
        }
        r
    } else {
        proof {
            assert(ws@.skip(i as int) =~= Seq::<u64>::empty());
            assert(acc@ + words_to_bytes(Seq::<u64>::empty()) =~= acc@);
        }
        acc
    }
}

/// Encodes the whole process state as its durable blob.
pub fn encode_state(st: &ProcessState) -> (b: Vec<u8>)
    ensures
        b@ == spec_encode(st.model()),
        st.model().bounded(),
{
    let mut words: Vec<u64> = Vec::new();
    words.push(STATE_VERSION);
    words.push(st.counter as u64);
    words.push(st.users.len() as u64);
    e_users(&mut words, &st.users, 0);
    proof {
        let m = st.model();
        assert(models_of(st.users@).skip(0) =~= models_of(st.users@));
        assert(words@ =~= enc_state(m));
        assert(forall|j: int|
            0 <= j < m.users.len() ==> (#[trigger] m.users[j]).bounded());
    }
    let b = words_to_bytes_exec(&words, 0, Vec::new());
    proof {
        assert(words@.skip(0) =~= words@);
        assert(Seq::<u8>::empty() + words_to_bytes(words@) =~= words_to_bytes(words@));
    }
    b
}

// ---------------------------------------------------------------------
// Decoding (executable): each function mirrors the corresponding
// specification parser at the current position in the word sequence.
// ---------------------------------------------------------------------

fn d_word(v: &Vec<u64>, pos: usize) -> (r: Option<(u64, usize)>)
    requires
        pos as nat <= v@.len(),
    ensures
        match r {
            Some(wp) => {
                &&& pos < v@.len() && wp.1 == pos + 1
                &&& p_word(v@.skip(pos as int)) == Some((wp.0, v@.skip(wp.1 as int)))
            },
            None => p_word(v@.skip(pos as int)) is None,
        },
{
    if pos < v.len() {
        proof {
            assert(v@.skip(pos as int)[0] == v@[pos as int]);
            assert(v@.skip(pos as int).drop_first() =~= v@.skip(pos as int + 1));
        }
        Some((v[pos], pos + 1))
    } else {
        proof {
            assert(v@.skip(pos as int).len() == 0);
        }
        None
    }
}

proof fn lemma_char_inj(a: char, b: char)
    requires
        a as u32 == b as u32,
    ensures
        a == b,
{
}

fn d_char(v: &Vec<u64>, pos: usize) -> (r: Option<(char, usize)>)
    requires
        pos as nat <= v@.len(),
    ensures
        match r {
            Some(cp) => {
                &&& pos < v@.len() && cp.1 == pos + 1
                &&& p_char(v@.skip(pos as int)) == Some((cp.0, v@.skip(cp.1 as int)))
            },
            None => p_char(v@.skip(pos as int)) is None,
        },
{
    match d_word(v, pos) {
        None => None,
        Some((w, p2)) => {
            if w > 0xFFFF_FFFF {
                proof {
                    assert(!char_code(w));
                }
                None
            } else {
                match char::from_u32(w as u32) {
                    Some(c) => {
                        proof {
                            assert(code_of(c) == w);
                            assert(char_code(w));
                            assert(code_of(char_of(w)) == w);
                            lemma_char_inj(char_of(w), c);
                        }
                        Some((c, p2))
                    },
                    None => {
                        proof {
                            assert(!char_code(w));
                        }
                        None
                    },
                }
            }
        },
    }
}

fn d_chars(v: &Vec<u64>, pos: usize, n: u64, acc: String) -> (r: Option<(String, usize)>)
    requires
        pos as nat <= v@.len(),
    ensures
        match p_chars(v@.skip(pos as int), n as nat) {
            Some(pr) => {
                &&& r matches Some(sp) && pos <= sp.1 && sp.1 as nat <= v@.len()
                &&& r matches Some(sp) ==> sp.0@ == acc@ + pr.0 && v@.skip(sp.1 as int) == pr.1
            },
            None => r is None,
        },
    decreases n,
{
    if n == 0 {
        proof {
            assert(acc@ + Seq::<char>::empty() =~= acc@);
        }
        Some((acc, pos))
    } else {
        match d_char(v, pos) {
            None => None,
            Some((c, p1)) => {
                let mut acc2 = acc;
                acc2.push(c);
                let res = d_chars(v, p1, n - 1, acc2);
                proof {
                    match p_chars(v@.skip(p1 as int), (n - 1) as nat) {
                        Some(pr1) => {
                            assert(acc@.push(c) + pr1.0 =~= acc@ + (seq![c] + pr1.0));
                        },
                        None => {},
                    }
                }
                res
            },
        }
    }
}

fn d_string(v: &Vec<u64>, pos: usize) -> (r: Option<(String, usize)>)
    requires
        pos as nat <= v@.len(),
    ensures
        match p_string(v@.skip(pos as int)) {
            Some(pr) => {
                &&& r matches Some(sp) && pos <= sp.1 && sp.1 as nat <= v@.len()
                &&& r matches Some(sp) ==> sp.0@ == pr.0 && v@.skip(sp.1 as int) == pr.1
            },
            None => r is None,
        },
{
    match d_word(v, pos) {
        None => None,
        Some((nw, p1)) => {
            let res = d_chars(v, p1, nw, String::new());
            proof {
                match p_chars(v@.skip(p1 as int), nw as nat) {
                    Some(pr1) => {
                        assert(Seq::<char>::empty() + pr1.0 =~= pr1.0);
                    },
                    None => {},
                }
            }
            res
        },
    }
}

fn d_i64s(v: &Vec<u64>, pos: usize, n: u64, acc: Vec<i64>) -> (r: Option<(Vec<i64>, usize)>)
    requires
        pos as nat <= v@.len(),
    ensures
        match p_i64s(v@.skip(pos as int), n as nat) {
            Some(pr) => {
                &&& r matches Some(sp) && pos <= sp.1 && sp.1 as nat <= v@.len()
                &&& r matches Some(sp) ==> sp.0@ == acc@ + pr.0 && sp.0@.len() == acc@.len()
                    + n && v@.skip(sp.1 as int) == pr.1
            },
            None => r is None,
        },
    decreases n,
{
    if n == 0 {
        proof {
            assert(acc@ + Seq::<i64>::empty() =~= acc@);
        }
        Some((acc, pos))
    } else {
        match d_word(v, pos) {
            None => None,
            Some((w, p1)) => {
                let mut acc2 = acc;
                acc2.push(w as i64);
                let res = d_i64s(v, p1, n - 1, acc2);
                proof {
                    match p_i64s(v@.skip(p1 as int), (n - 1) as nat) {
                        Some(pr1) => {
                            assert(acc@.push(w as i64) + pr1.0 =~= acc@ + (seq![w as i64] + pr1.0));
                        },
                        None => {},
                    }
                }
                res
            },
        }
    }
}

fn d_vec(v: &Vec<u64>, pos: usize, dim: usize) -> (r: Option<(Vec<i64>, usize)>)
    requires
        pos as nat <= v@.len(),
    ensures
        match p_vec(v@.skip(pos as int), dim as nat) {
            Some(pr) => {
                &&& r matches Some(sp) && pos <= sp.1 && sp.1 as nat <= v@.len()
                &&& r matches Some(sp) ==> sp.0@ == pr.0 && sp.0@.len() == dim && v@.skip(
                    sp.1 as int,
                ) == pr.1
            },
            None => r is None,
        },
{
    match d_word(v, pos) {
        None => None,
        Some((nw, p1)) => {
            if nw != dim as u64 {
                None
            } else {
                let res = d_i64s(v, p1, nw, Vec::new());
                proof {
                    match p_i64s(v@.skip(p1 as int), nw as nat) {
                        Some(pr1) => {
                            assert(Seq::<i64>::empty() + pr1.0 =~= pr1.0);
                        },
                        None => {},
                    }
                }
                res
            }
        },
    }
}

fn d_vecs(v: &Vec<u64>, pos: usize, n: u64, dim: usize, acc: Vec<Vec<i64>>) -> (r: Option<
    (Vec<Vec<i64>>, usize),
>)
    requires
        pos as nat <= v@.len(),
        hist_wf(acc.deep_view(), dim as int),
    ensures
        match p_vecs(v@.skip(pos as int), n as nat, dim as nat) {
            Some(pr) => {
                &&& r matches Some(sp) && pos <= sp.1 && sp.1 as nat <= v@.len()
                &&& r matches Some(sp) ==> sp.0.deep_view() == acc.deep_view() + pr.0 && hist_wf(
                    sp.0.deep_view(),
                    dim as int,
                ) && v@.skip(sp.1 as int) == pr.1
            },
            None => r is None,
        },
    decreases n,
{
    if n == 0 {
        proof {
            assert(acc.deep_view() + Seq::<Seq<i64>>::empty() =~= acc.deep_view());
        }
        Some((acc, pos))
    } else {
        match d_vec(v, pos, dim) {
            None => None,
            Some((ve, p1)) => {
                let ghost gve = ve@;
                let mut acc2 = acc;
                acc2.push(ve);
                proof {
                    assert(acc2.deep_view() =~~= acc.deep_view().push(gve));
                }
                let res = d_vecs(v, p1, n - 1, dim, acc2);
                proof {
                    match p_vecs(v@.skip(p1 as int), (n - 1) as nat, dim as nat) {
                        Some(pr1) => {
                            assert(acc.deep_view().push(gve) + pr1.0 =~= acc.deep_view() + (
                            seq![gve] + pr1.0));
                        },
                        None => {},
                    }
                }
                res
            },
        }
    }
}

fn d_hist(v: &Vec<u64>, pos: usize, dim: usize) -> (r: Option<(Vec<Vec<i64>>, usize)>)
    requires
        pos as nat <= v@.len(),
    ensures
        match p_hist(v@.skip(pos as int), dim as nat) {
            Some(pr) => {
                &&& r matches Some(sp) && pos <= sp.1 && sp.1 as nat <= v@.len()
                &&& r matches Some(sp) ==> sp.0.deep_view() == pr.0 && hist_wf(
                    sp.0.deep_view(),
                    dim as int,
                ) && v@.skip(sp.1 as int) == pr.1
            },
            None => r is None,
        },
{
    match d_word(v, pos) {
        None => None,
        Some((nw, p1)) => {
            let empty: Vec<Vec<i64>> = Vec::new();
            proof {
                assert(empty.deep_view() =~= Seq::<Seq<i64>>::empty());
            }
            let res = d_vecs(v, p1, nw, dim, empty);
            proof {
                match p_vecs(v@.skip(p1 as int), nw as nat, dim as nat) {
                    Some(pr1) => {
                        assert(Seq::<Seq<i64>>::empty() + pr1.0 =~= pr1.0);
                    },
                    None => {},
                }
            }
            res
        },
    }
}

fn d_user(v: &Vec<u64>, pos: usize) -> (r: Option<(User, usize)>)
    requires
        pos as nat <= v@.len(),
    ensures
        match p_user(v@.skip(pos as int)) {
            Some(pr) => {
                &&& r matches Some(sp) && pos <= sp.1 && sp.1 as nat <= v@.len()
                &&& r matches Some(sp) ==> sp.0.wf() && user_model(sp.0) == pr.0 && v@.skip(
                    sp.1 as int,
                ) == pr.1
            },
            None => r is None,
        },
{
    let (id, p1) = match d_string(v, pos) {
        Some(x) => x,
        None => {
            return None;
        },
    };
    let (email, p2) = match d_string(v, p1) {
        Some(x) => x,
        None => {
            return None;
        },
    };
    let (name, p3) = match d_string(v, p2) {
        Some(x) => x,
        None => {
            return None;
        },
    };
    let (telegram, p4) = match d_string(v, p3) {
        Some(x) => x,
        None => {
            return None;
        },
    };
    let (instegram, p5) = match d_string(v, p4) {
        Some(x) => x,
        None => {
            return None;
        },
    };
    let (x_account, p6) = match d_string(v, p5) {
        Some(x) => x,
        None => {
            return None;
        },
    };
    let (emotion, p7) = match d_vec(v, p6, EMOTION_DIM) {
        Some(x) => x,
        None => {
            return None;
        },
    };
    let (spiral, p8) = match d_vec(v, p7, SPIRAL_DIM) {
        Some(x) => x,
        None => {
            return None;
        },
    };
    let (emotion_history, p9) = match d_hist(v, p8, EMOTION_DIM) {
        Some(x) => x,
        None => {
            return None;
        },
    };
    let (spiral_history, p10) = match d_hist(v, p9, SPIRAL_DIM) {
        Some(x) => x,
        None => {
            return None;
        },
    };
    let current_emotion_hybrid = crate::user::calculate_hybrid(&emotion);
    let current_spiral_hybrid = crate::user::calculate_hybrid(&spiral);
    let u = User {
        id,
        email,
        name,
        telegram,
        instegram,
        x_account,
        current_emotion_hybrid,
        current_spiral_hybrid,
        current_emotion: emotion,
        current_spiral: spiral,
        emotion_history,
        spiral_history,
    };
    proof {
        match p_user(v@.skip(pos as int)) {
            Some(pr) => {
                assert(user_model(u) =~= pr.0);
            },
            None => {},
        }
    }
    Some((u, p10))
}

fn d_users(v: &Vec<u64>, pos: usize, n: u64, acc: Vec<User>) -> (r: Option<(Vec<User>, usize)>)
    requires
        pos as nat <= v@.len(),
        forall|j: int| 0 <= j < acc@.len() ==> (#[trigger] acc@[j]).wf(),
    ensures
        match p_users(v@.skip(pos as int), n as nat) {
            Some(pr) => {
                &&& r matches Some(sp) && pos <= sp.1 && sp.1 as nat <= v@.len()
                &&& r matches Some(sp) ==> models_of(sp.0@) == models_of(acc@) + pr.0 && (forall|
                    j: int,
                |
                    0 <= j < sp.0@.len() ==> (#[trigger] sp.0@[j]).wf()) && v@.skip(sp.1 as int)
                    == pr.1
            },
            None => r is None,
        },
    decreases n,
{
    if n == 0 {
        proof {
            assert(models_of(acc@) + Seq::<UserModel>::empty() =~= models_of(acc@));
        }
        Some((acc, pos))
    } else {
        match d_user(v, pos) {
            None => None,
            Some((u, p1)) => {
                let ghost gu = u;
                let mut acc2 = acc;
                acc2.push(u);
                proof {
                    assert(models_of(acc2@) =~= models_of(acc@).push(user_model(gu)));
                }
                let res = d_users(v, p1, n - 1, acc2);
                proof {
                    match p_users(v@.skip(p1 as int), (n - 1) as nat) {
                        Some(pr1) => {
                            assert(models_of(acc@).push(user_model(gu)) + pr1.0 =~= models_of(acc@)
                                + (seq![user_model(gu)] + pr1.0));
                        },
                        None => {},
                    }
                }
                res
            },
        }
    }
}

fn d_state(v: &Vec<u64>) -> (r: Option<(ProcessState, usize)>)
    ensures
        match p_state(v@) {
            Some(pr) => {
                &&& r matches Some(sp) && sp.1 as nat <= v@.len()
                &&& r matches Some(sp) ==> sp.0.counter == pr.0.counter && models_of(sp.0.users@)
                    == pr.0.users && (forall|j: int|
                    0 <= j < sp.0.users@.len() ==> (#[trigger] sp.0.users@[j]).wf()) && v@.skip(
                    sp.1 as int,
                ) == pr.1
            },
            None => r is None,
        },
{
    proof {
        assert(v@.skip(0) =~= v@);
    }
    let (ver, p1) = match d_word(v, 0) {
        Some(x) => x,
        None => {
            return None;
        },
    };
    if ver != STATE_VERSION {
        return None;
    }
    let (cw, p2) = match d_word(v, p1) {
        Some(x) => x,
        None => {
            return None;
        },
    };
    if cw > 0xFFFF_FFFF {
        return None;
    }
    let (nw, p3) = match d_word(v, p2) {
        Some(x) => x,
        None => {
            return None;
        },
    };
    let (users, p4) = match d_users(v, p3, nw, Vec::new()) {
        Some(x) => x,
        None => {
            return None;
        },
    };
    proof {
        match p_users(v@.skip(p3 as int), nw as nat) {
            Some(pr1) => {
                assert(Seq::<UserModel>::empty() + pr1.0 =~= pr1.0);
            },
            None => {},
        }
    }
    Some((ProcessState { counter: cw as u32, users }, p4))
}

fn bytes_to_words_exec(b: &Vec<u8>, pos: usize, acc: Vec<u64>) -> (ws: Vec<u64>)
    requires
        pos as nat <= b@.len(),
        (b@.len() - pos as nat) % 8 == 0,
    ensures
        ws@ == acc@ + bytes_to_words(b@.skip(pos as int)),
    decreases b@.len() - pos as nat,
{
    let n = b.len();
    if pos < n {
        assert(n - pos >= 8);
        let w = u64_from_le_bytes(slice_subrange(b.as_slice(), pos, pos + 8));
        let mut acc2 = acc;
        acc2.push(w);
        let r = bytes_to_words_exec(b, pos + 8, acc2);
        proof {
            let sk = b@.skip(pos as int);
            assert(sk.take(8) =~= b@.subrange(pos as int, pos as int + 8));
            assert(sk.skip(8) =~= b@.skip(pos as int + 8));
            assert(acc@.push(w) + bytes_to_words(b@.skip(pos as int + 8)) =~= acc@ + (seq![w]
                + bytes_to_words(sk.skip(8))));
        }
        r
    } else {
        proof {
            assert(b@.skip(pos as int) =~= Seq::<u8>::empty());
            assert(acc@ + bytes_to_words(Seq::<u8>::empty()) =~= acc@);
        }
        acc
    }
}

fn ids_distinct(users: &Vec<User>) -> (b: bool)
    ensures
        b == ids_unique(models_of(users@)),
{
    let ghost ms = models_of(users@);
    let n = users.len();
    let mut i: usize = 0;
    while i < n
        invariant
            n == users@.len(),
            i <= n,
            ms == models_of(users@),
            forall|a: int, c: int|
                0 <= a < c < n && a < i ==> (#[trigger] ms[a]).id != (#[trigger] ms[c]).id,
        decreases n - i,
    {
        let mut j: usize = i + 1;
        while j < n
            invariant
                n == users@.len(),
                i < n,
                i + 1 <= j <= n,
                ms == models_of(users@),
                forall|a: int, c: int|
                    0 <= a < c < n && a < i ==> (#[trigger] ms[a]).id != (#[trigger] ms[c]).id,
                forall|c: int| i < c < j ==> ms[i as int].id != (#[trigger] ms[c]).id,
            decreases n - j,
        {
            if users[i].id.eq(&users[j].id) {
                proof {
                    assert(ms[i as int].id == ms[j as int].id);
                    assert(!ids_unique(ms));
                }
                return false;
            }
            j = j + 1;
        }
        i = i + 1;
    }
    proof {
        assert forall|x: int, y: int|
            0 <= x < ms.len() && 0 <= y < ms.len() && x != y implies (#[trigger] ms[x]).id != (
        #[trigger] ms[y]).id by {
            if x < y {
                assert(ms[x].id != ms[y].id);
            } else {
                assert(ms[y].id != ms[x].id);
            }
        }
    }
    true
}

/// Decodes a durable blob back into a process state; `None` exactly when
/// the blob does not decode to a valid state.
pub fn decode_state(b: &Vec<u8>) -> (r: Option<ProcessState>)
    ensures
        match spec_decode(b@) {
            Some(m) => r matches Some(st) && st.wf() && st.model() == m,
            None => r is None,
        },
{
    if b.len() % 8 != 0 {
        return None;
    }
    let words = bytes_to_words_exec(b, 0, Vec::new());
    proof {
        assert(b@.skip(0) =~= b@);
        assert(Seq::<u64>::empty() + bytes_to_words(b@) =~= bytes_to_words(b@));
    }
    match d_state(&words) {
        None => None,
        Some((st, p)) => {
            if p != words.len() {
                None
            } else if !ids_distinct(&st.users) {
                None
            } else {
                proof {
                    match p_state(words@) {
                        Some(pr) => {
                            assert(st.model() =~= pr.0);
                        },
                        None => {},
                    }
                }
                Some(st)
            }
        },
    }
}

} // verus!
