//! The sample record the tests store: two `u32` fields, identified by `id`,
//! with a verified textual codec. The stored text is the object form
//! `{"id":NN,"data":NN}` with canonical decimal numerals; anything else is
//! rejected as malformed, never defaulted.

use crate::entity::{CodecFault, Entity};
use crate::model::nul_free;
use crate::numeral::{
    all_digits, dec_digits, digit_val, is_digit, lemma_dec_digits_shape, lemma_val_of_dec_digits,
    lemma_val_of_push, u32_to_dec, val_of,
};
use vstd::prelude::*;
use vstd::string::*;

verus! {

/// A record with a `u32` identifier and a `u32` payload.
#[derive(Debug, Clone, PartialEq, Eq, Structural)]
pub struct MyData {
    pub id: u32,
    pub data: u32,
}

/// The opening of the encoded object, up to the identifier field's value.
pub open spec fn obj_open() -> Seq<char> {
    seq!['{', '"', 'i', 'd', '"', ':']
}

/// The text between the identifier's value and the payload's value.
pub open spec fn obj_mid() -> Seq<char> {
    seq![',', '"', 'd', 'a', 't', 'a', '"', ':']
}

/// The encoding of a record with identifier `id` and payload `data`.
pub open spec fn enc_of(id: nat, data: nat) -> Seq<char> {
    obj_open() + dec_digits(id) + obj_mid() + dec_digits(data) + seq!['}']
}

/// The first position at or after `i` that does not hold a digit.
pub open spec fn run_end(s: Seq<char>, i: int) -> int
    recommends
        0 <= i <= s.len(),
    decreases s.len() - i,
{
    if 0 <= i < s.len() && is_digit(s[i]) {
        run_end(s, i + 1)
    } else {
        i
    }
}

/// What a stored text decodes to: the two field values of the one well-formed
/// reading, or nothing.
pub open spec fn parse_spec(s: Seq<char>) -> Option<MyData> {
    if s.len() >= 6 && s.subrange(0, 6) == obj_open() {
        let e1 = run_end(s, 6);
        if e1 > 6 && val_of(s.subrange(6, e1)) <= u32::MAX && e1 + 8 <= s.len() && s.subrange(
            e1,
            e1 + 8,
        ) == obj_mid() {
            let e2 = run_end(s, e1 + 8);
            if e2 > e1 + 8 && val_of(s.subrange(e1 + 8, e2)) <= u32::MAX && e2 + 1 == s.len()
                && s[e2] == '}' {
                Some(
                    MyData {
                        id: val_of(s.subrange(6, e1)) as u32,
                        data: val_of(s.subrange(e1 + 8, e2)) as u32,
                    },
                )
            } else {
                None
            }
        } else {
            None
        }
    } else {
        None
    }
}

/// A run of digits followed by a non-digit (or the end) stops exactly there.
pub proof fn lemma_run_end_exact(s: Seq<char>, a: int, b: int)
    requires
        0 <= a <= b <= s.len(),
        forall|m: int| a <= m < b ==> is_digit(#[trigger] s[m]),
        b == s.len() || !is_digit(s[b]),
    ensures
        run_end(s, a) == b,
    decreases b - a,
{
    if a == b {
    } else {
        assert(is_digit(s[a]));
        lemma_run_end_exact(s, a + 1, b);
    }
}

/// The value of one digit character.
fn char_digit_val(c: char) -> (d: u32)
    requires
        is_digit(c),
    ensures
        d as nat == digit_val(c),
{
    (c as u32) - 48
}

/// Whether `pat` occurs in `s` exactly at position `pos`.
fn match_at(s: &str, pos: usize, pat: &str) -> (b: bool)
    requires
        pos <= s@.len(),
    ensures
        b == (pos + pat@.len() <= s@.len() && s@.subrange(
            pos as int,
            pos as int + pat@.len() as int,
        ) == pat@),
{
    let n = s.unicode_len();
    let m = pat.unicode_len();
    if m > n - pos {
        return false;
    }
    let mut j: usize = 0;
    while j < m
        invariant
            pos + m <= n,
            n == s@.len(),
            m == pat@.len(),
            0 <= j <= m,
            forall|x: int| 0 <= x < j ==> s@[pos + x] == pat@[x],
        decreases m - j,
    {
        if s.get_char(pos + j) != pat.get_char(j) {
            proof {
                let a = pos as int;
                if s@.subrange(a, a + m as int) == pat@ {
                    assert(s@.subrange(a, a + m as int)[j as int] == s@[a + j]);
                }
            }
            return false;
        }
        j += 1;
    }
    proof {
        assert(s@.subrange(pos as int, pos as int + m as int) =~= pat@);
    }
    true
}

/// Scans the digit run of `s` that starts at `from`.
fn scan_run(s: &str, from: usize) -> (e: usize)
    requires
        from <= s@.len(),
    ensures
        from <= e <= s@.len(),
        e == run_end(s@, from as int),
        forall|m: int| from <= m < e ==> is_digit(#[trigger] s@[m]),
{
    let n = s.unicode_len();
    let mut i: usize = from;
    while i < n
        invariant
            from <= i <= n,
            n == s@.len(),
            forall|m: int| from <= m < i ==> is_digit(#[trigger] s@[m]),
        decreases n - i,
    {
        let c = s.get_char(i);
        if !('0' <= c && c <= '9') {
            proof {
                lemma_run_end_exact(s@, from as int, i as int);
            }
            return i;
        }
        i += 1;
    }
    proof {
        lemma_run_end_exact(s@, from as int, n as int);
    }
    i
}

/// Reads the value of the digit run `s[from..to]`, unless it exceeds `u32`.
fn run_value(s: &str, from: usize, to: usize) -> (r: Option<u32>)
    requires
        from <= to <= s@.len(),
        forall|m: int| from <= m < to ==> is_digit(#[trigger] s@[m]),
    ensures
        match r {
            Some(v) => v as nat == val_of(s@.subrange(from as int, to as int)) && val_of(
                s@.subrange(from as int, to as int),
            ) <= u32::MAX,
            None => val_of(s@.subrange(from as int, to as int)) > u32::MAX,
        },
{
    let mut acc: u64 = 0;
    let mut over: bool = false;
    let mut i: usize = from;
    while i < to
        invariant
            from <= i <= to <= s@.len(),
            forall|m: int| from <= m < to ==> is_digit(#[trigger] s@[m]),
            !over ==> acc as nat == val_of(s@.subrange(from as int, i as int)) && acc <= u32::MAX
                as u64,
            over ==> val_of(s@.subrange(from as int, i as int)) > u32::MAX,
        decreases to - i,
    {
        let c = s.get_char(i);
        let d = char_digit_val(c);
        proof {
            let pre = s@.subrange(from as int, i as int);
            assert(s@.subrange(from as int, i as int + 1) =~= pre.push(s@[i as int]));
            lemma_val_of_push(pre, s@[i as int]);
        }
        if over {
            proof {
                let pre = s@.subrange(from as int, i as int);
                assert(val_of(pre) * 10 + digit_val(s@[i as int]) > u32::MAX) by (nonlinear_arith)
                    requires
                        val_of(pre) > u32::MAX,
                ;
            }
        } else {
            let next = acc * 10 + (d as u64);
            if next > u32::MAX as u64 {
                over = true;
            } else {
                acc = next;
            }
        }
        i += 1;
    }
    proof {
        assert(s@.subrange(from as int, to as int) == s@.subrange(from as int, i as int));
    }
    if over {
        None
    } else {
        Some(acc as u32)
    }
}

/// The encoding of any record parses back to that record.
pub proof fn lemma_parse_enc_of(id: u32, data: u32)
    ensures
        parse_spec(enc_of(id as nat, data as nat)) == Some(MyData { id, data }),
{
    let p = obj_open();
    let d1 = dec_digits(id as nat);
    let m = obj_mid();
    let d2 = dec_digits(data as nat);
    let s = enc_of(id as nat, data as nat);
    lemma_dec_digits_shape(id as nat);
    lemma_dec_digits_shape(data as nat);
    lemma_val_of_dec_digits(id as nat);
    lemma_val_of_dec_digits(data as nat);
    let l1 = d1.len() as int;
    let l2 = d2.len() as int;
    assert(s.len() == 15 + l1 + l2);
    assert(s.subrange(0, 6) =~= p);
    assert(s.subrange(6, 6 + l1) =~= d1);
    assert(s.subrange(6 + l1, 14 + l1) =~= m);
    assert(s.subrange(14 + l1, 14 + l1 + l2) =~= d2);
    assert(s[14 + l1 + l2] == '}');
    assert forall|x: int| 6 <= x < 6 + l1 implies is_digit(#[trigger] s[x]) by {
        assert(s.subrange(6, 6 + l1)[x - 6] == s[x]);
        assert(all_digits(d1));
        assert(is_digit(d1[x - 6]));
    }
    assert(s[6 + l1] == ',') by {
        assert(s.subrange(6 + l1, 14 + l1)[0] == s[6 + l1]);
        assert(m[0] == ',');
    }
    assert(!is_digit(','));
    lemma_run_end_exact(s, 6, 6 + l1);
    let e1 = run_end(s, 6);
    assert(e1 == 6 + l1);
    assert(val_of(s.subrange(6, e1)) == id as nat);
    assert forall|x: int| 14 + l1 <= x < 14 + l1 + l2 implies is_digit(#[trigger] s[x]) by {
        assert(s.subrange(14 + l1, 14 + l1 + l2)[x - (14 + l1)] == s[x]);
        assert(all_digits(d2));
        assert(is_digit(d2[x - (14 + l1)]));
    }
    assert(!is_digit('}'));
    lemma_run_end_exact(s, 14 + l1, 14 + l1 + l2);
    let e2 = run_end(s, e1 + 8);
    assert(e2 == 14 + l1 + l2);
    assert(val_of(s.subrange(e1 + 8, e2)) == data as nat);
    assert(e2 + 1 == s.len());
    assert(s[e2] == '}');
    assert(parse_spec(s) == Some(MyData { id, data }));
}

/// The encoding of any record holds no NUL byte: its fixed characters are
/// printable and its numerals are digits.
pub proof fn lemma_enc_of_nul_free(id: u32, data: u32)
    ensures
        nul_free(enc_of(id as nat, data as nat)),
{
    let p = obj_open();
    let d1 = dec_digits(id as nat);
    let m = obj_mid();
    let d2 = dec_digits(data as nat);
    let s = enc_of(id as nat, data as nat);
    lemma_dec_digits_shape(id as nat);
    lemma_dec_digits_shape(data as nat);
    let l1 = d1.len() as int;
    let l2 = d2.len() as int;
    assert(s.len() == 15 + l1 + l2);
    assert(s.subrange(0, 6) =~= p);
    assert(s.subrange(6, 6 + l1) =~= d1);
    assert(s.subrange(6 + l1, 14 + l1) =~= m);
    assert(s.subrange(14 + l1, 14 + l1 + l2) =~= d2);
    assert(s[14 + l1 + l2] == '}');
    assert forall|x: int| 0 <= x < s.len() implies (#[trigger] s[x]) != '\0' by {
        if x < 6 {
            assert(s.subrange(0, 6)[x] == s[x]);
        } else if x < 6 + l1 {
            assert(s.subrange(6, 6 + l1)[x - 6] == s[x]);
            assert(is_digit(d1[x - 6]));
        } else if x < 14 + l1 {
            assert(s.subrange(6 + l1, 14 + l1)[x - (6 + l1)] == s[x]);
        } else if x < 14 + l1 + l2 {
            assert(s.subrange(14 + l1, 14 + l1 + l2)[x - (14 + l1)] == s[x]);
            assert(is_digit(d2[x - (14 + l1)]));
        } else {
            assert(x == 14 + l1 + l2);
        }
    }
}

impl Entity for MyData {
    /// The identifier's decimal numeral keys the row.
    open spec fn id_spec(&self) -> Seq<char> {
        dec_digits(self.id as nat)
    }

    open spec fn enc_spec(&self) -> Seq<char> {
        enc_of(self.id as nat, self.data as nat)
    }

    /// Every record has an encoding.
    open spec fn encodable(&self) -> bool {
        true
    }

    open spec fn dec_spec(s: Seq<char>) -> Option<MyData> {
        parse_spec(s)
    }

    proof fn lemma_round_trip(&self) {
        lemma_parse_enc_of(self.id, self.data);
    }

    proof fn lemma_enc_nul_free(&self) {
        lemma_enc_of_nul_free(self.id, self.data);
    }

    fn get_key(&self) -> (r: String) {
        u32_to_dec(self.id)
    }

    fn encode(&self) -> (r: Result<String, CodecFault>) {
        proof {
            reveal_strlit("{\"id\":");
            reveal_strlit(",\"data\":");
            reveal_strlit("}");
        }
        let mut out = String::from_str("{\"id\":");
        let d1 = u32_to_dec(self.id);
        out.append(d1.as_str());
        out.append(",\"data\":");
        let d2 = u32_to_dec(self.data);
        out.append(d2.as_str());
        out.append("}");
        proof {
            assert(out@ =~= enc_of(self.id as nat, self.data as nat));
        }
        Ok(out)
    }

    fn decode(s: &str) -> (r: Result<MyData, CodecFault>) {
        proof {
            reveal_strlit("{\"id\":");
            reveal_strlit(",\"data\":");
        }
        let n = s.unicode_len();
        let open_pat = "{\"id\":";
        proof {
            assert(open_pat@ =~= obj_open());
        }
        if !match_at(s, 0, open_pat) {
            proof {
                assert(parse_spec(s@) is None);
            }
            return Err(CodecFault::Malformed);
        }
        let e1 = scan_run(s, 6);
        if e1 == 6 {
            proof {
                assert(parse_spec(s@) is None);
            }
            return Err(CodecFault::Malformed);
        }
        let id_v = match run_value(s, 6, e1) {
            Some(v) => v,
            None => {
                proof {
                    assert(parse_spec(s@) is None);
                }
                return Err(CodecFault::OutOfRange);
            },
        };
        let mid_pat = ",\"data\":";
        proof {
            assert(mid_pat@ =~= obj_mid());
        }
        if !match_at(s, e1, mid_pat) {
            proof {
                assert(parse_spec(s@) is None);
            }
            return Err(CodecFault::Malformed);
        }
        let s2 = e1 + 8;
        let e2 = scan_run(s, s2);
        if e2 == s2 {
            proof {
                assert(parse_spec(s@) is None);
            }
            return Err(CodecFault::Malformed);
        }
        let data_v = match run_value(s, s2, e2) {
            Some(v) => v,
            None => {
                proof {
                    assert(parse_spec(s@) is None);
                }
                return Err(CodecFault::OutOfRange);
            },
        };
        if n - e2 != 1 {
            proof {
                assert(parse_spec(s@) is None);
            }
            return Err(CodecFault::Malformed);
        }
        if s.get_char(e2) != '}' {
            proof {
                assert(parse_spec(s@) is None);
            }
            return Err(CodecFault::Malformed);
        }
        proof {
            assert(parse_spec(s@) == Some(MyData { id: id_v, data: data_v }));
        }
        Ok(MyData { id: id_v, data: data_v })
    }
}

} // verus!
