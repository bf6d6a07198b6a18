use vstd::prelude::*;

verus! {

/// An IPv4 address held as its four octets.
#[derive(Clone, Copy, PartialEq, Eq, Structural, Debug)]
pub struct Ipv4 {
    pub o0: u8,
    pub o1: u8,
    pub o2: u8,
    pub o3: u8,
}

/// A UDP endpoint: an IPv4 address and a port.
#[derive(Clone, Copy, PartialEq, Eq, Structural, Debug)]
pub struct SockAddr {
    pub ip: Ipv4,
    pub port: u16,
}

/// A decimal digit byte.
pub open spec fn is_digit(b: u8) -> bool {
    48 <= b <= 57
}

/// The decimal octet starting at `i`: one to three digits taken greedily,
/// value at most 255; the value and the position just past the digits.
pub open spec fn spec_parse_octet(s: Seq<u8>, i: int) -> Option<(int, int)> {
    if 0 <= i < s.len() && is_digit(s[i]) {
        let d0 = s[i] - 48;
        if i + 1 < s.len() && is_digit(s[i + 1]) {
            let d1 = s[i + 1] - 48;
            if i + 2 < s.len() && is_digit(s[i + 2]) {
                let v = d0 * 100 + d1 * 10 + (s[i + 2] - 48);
                if v <= 255 {
                    Some((v, i + 3))
                } else {
                    None
                }
            } else {
                Some((d0 * 10 + d1, i + 2))
            }
        } else {
            Some((d0, i + 1))
        }
    } else {
        None
    }
}

/// The IPv4 address written in `s` as a dotted-quad literal: four decimal
/// octets separated by dots, nothing before or after.
pub open spec fn spec_parse_ipv4(s: Seq<u8>) -> Option<Ipv4> {
    match spec_parse_octet(s, 0) {
        Option::None => None,
        Option::Some((v0, i1)) => if i1 < s.len() && s[i1] == 46 {
            match spec_parse_octet(s, i1 + 1) {
                Option::None => None,
                Option::Some((v1, i2)) => if i2 < s.len() && s[i2] == 46 {
                    match spec_parse_octet(s, i2 + 1) {
                        Option::None => None,
                        Option::Some((v2, i3)) => if i3 < s.len() && s[i3] == 46 {
                            match spec_parse_octet(s, i3 + 1) {
                                Option::None => None,
                                Option::Some((v3, i4)) => if i4 == s.len() {
                                    Some(
                                        Ipv4 {
                                            o0: v0 as u8,
                                            o1: v1 as u8,
                                            o2: v2 as u8,
                                            o3: v3 as u8,
                                        },
                                    )
                                } else {
                                    None
                                },
                            }
                        } else {
                            None
                        },
                    }
                } else {
                    None
                },
            }
        } else {
            None
        },
    }
}

/// The canonical decimal text of one octet value: one to three digits,
/// no leading zero.
pub open spec fn octet_text(v: int) -> Seq<u8> {
    if v < 10 {
        seq![(48 + v) as u8]
    } else if v < 100 {
        seq![(48 + v / 10) as u8, (48 + v % 10) as u8]
    } else {
        seq![(48 + v / 100) as u8, (48 + (v / 10) % 10) as u8, (48 + v % 10) as u8]
    }
}

/// The canonical dotted-quad text of an address.
pub open spec fn ipv4_text(a: Ipv4) -> Seq<u8> {
    octet_text(a.o0 as int) + seq![46u8] + octet_text(a.o1 as int) + seq![46u8] + octet_text(
        a.o2 as int,
    ) + seq![46u8] + octet_text(a.o3 as int)
}

proof fn lemma_parse_octet_of_text(s: Seq<u8>, i: int, v: int)
    requires
        0 <= v < 256,
        0 <= i,
        i + octet_text(v).len() <= s.len(),
        forall|k: int| 0 <= k < octet_text(v).len() ==> s[i + k] == octet_text(v)[k],
        i + octet_text(v).len() == s.len() || !is_digit(s[i + octet_text(v).len()]),
    ensures
        spec_parse_octet(s, i) == Some((v, i + octet_text(v).len())),
{
    if v < 10 {
        assert(s[i + 0] == octet_text(v)[0]);
    } else if v < 100 {
        assert(s[i + 0] == octet_text(v)[0]);
        assert(s[i + 1] == octet_text(v)[1]);
        assert((v / 10) * 10 + v % 10 == v) by {
            vstd::arithmetic::div_mod::lemma_fundamental_div_mod(v, 10);
        }
        assert(1 <= v / 10 <= 9);
    } else {
        assert(s[i + 0] == octet_text(v)[0]);
        assert(s[i + 1] == octet_text(v)[1]);
        assert(s[i + 2] == octet_text(v)[2]);
        assert((v / 10) / 10 == v / 100) by {
            vstd::arithmetic::div_mod::lemma_div_denominator(v, 10, 10);
        }
        assert((v / 100) * 100 + ((v / 10) % 10) * 10 + v % 10 == v) by {
            vstd::arithmetic::div_mod::lemma_fundamental_div_mod(v, 10);
            vstd::arithmetic::div_mod::lemma_fundamental_div_mod(v / 10, 10);
        }
        assert(1 <= v / 100 <= 2);
        assert(0 <= (v / 10) % 10 <= 9);
    }
}

/// Parsing reads back exactly what the canonical dotted-quad text of any
/// address writes: the grammar accepts every address, assigns it the
/// right octets, and ends exactly at the text's end.
pub proof fn lemma_parse_ipv4_of_text(a: Ipv4)
    ensures
        spec_parse_ipv4(ipv4_text(a)) == Some(a),
{
    let s = ipv4_text(a);
    let t0 = octet_text(a.o0 as int);
    let t1 = octet_text(a.o1 as int);
    let t2 = octet_text(a.o2 as int);
    let t3 = octet_text(a.o3 as int);
    let i1 = t0.len() as int;
    let i2 = i1 + 1 + t1.len() as int;
    let i3 = i2 + 1 + t2.len() as int;
    assert(s.len() == i3 + 1 + t3.len() as int);
    assert forall|k: int| 0 <= k < t0.len() implies s[0 + k] == t0[k] by {
        assert(s[k] == t0[k]);
    }
    assert(s[i1] == 46);
    assert(!is_digit(46));
    lemma_parse_octet_of_text(s, 0, a.o0 as int);
    assert forall|k: int| 0 <= k < t1.len() implies s[(i1 + 1) + k] == t1[k] by {
        assert(s[i1 + 1 + k] == ((t0 + seq![46u8] + t1)[i1 + 1 + k]));
    }
    assert(s[i2] == 46);
    lemma_parse_octet_of_text(s, i1 + 1, a.o1 as int);
    assert forall|k: int| 0 <= k < t2.len() implies s[(i2 + 1) + k] == t2[k] by {
        assert(s[i2 + 1 + k] == ((t0 + seq![46u8] + t1 + seq![46u8] + t2)[i2 + 1 + k]));
    }
    assert(s[i3] == 46);
    lemma_parse_octet_of_text(s, i2 + 1, a.o2 as int);
    assert forall|k: int| 0 <= k < t3.len() implies s[(i3 + 1) + k] == t3[k] by {
        assert(s[i3 + 1 + k] == ((t0 + seq![46u8] + t1 + seq![46u8] + t2 + seq![46u8] + t3)[i3 + 1
            + k]));
    }
    lemma_parse_octet_of_text(s, i3 + 1, a.o3 as int);
}

fn parse_octet(s: &Vec<u8>, i: usize) -> (r: Option<(u8, usize)>)
    ensures
        r is Some <==> spec_parse_octet(s@, i as int) is Some,
        r matches Some(p) ==> spec_parse_octet(s@, i as int) == Some((p.0 as int, p.1 as int)) && i
            < p.1 <= s@.len(),
{
    let n = s.len();
    if i < n && 48 <= s[i] && s[i] <= 57 {
        let d0 = s[i] - 48;
        if n - i >= 2 && 48 <= s[i + 1] && s[i + 1] <= 57 {
            let d1 = s[i + 1] - 48;
            if n - i >= 3 && 48 <= s[i + 2] && s[i + 2] <= 57 {
                let d2 = s[i + 2] - 48;
                let v: u16 = (d0 as u16) * 100 + (d1 as u16) * 10 + (d2 as u16);
                if v <= 255 {
                    Some((v as u8, i + 3))
                } else {
                    None
                }
            } else {
                Some((d0 * 10 + d1, i + 2))
            }
        } else {
            Some((d0, i + 1))
        }
    } else {
        None
    }
}

/// Parse a dotted-quad IPv4 literal: four decimal octets of one to three
/// digits each, values at most 255, separated by dots, with nothing else
/// before or after.
pub fn parse_ipv4(s: &Vec<u8>) -> (r: Option<Ipv4>)
    ensures
        r == spec_parse_ipv4(s@),
{
    let n = s.len();
    match parse_octet(s, 0) {
        Option::None => None,
        Option::Some((v0, i1)) => {
            if i1 < n && s[i1] == 46 {
                match parse_octet(s, i1 + 1) {
                    Option::None => None,
                    Option::Some((v1, i2)) => {
                        if i2 < n && s[i2] == 46 {
                            match parse_octet(s, i2 + 1) {
                                Option::None => None,
                                Option::Some((v2, i3)) => {
                                    if i3 < n && s[i3] == 46 {
                                        match parse_octet(s, i3 + 1) {
                                            Option::None => None,
                                            Option::Some((v3, i4)) => {
                                                if i4 == n {
                                                    Some(Ipv4 { o0: v0, o1: v1, o2: v2, o3: v3 })
                                                } else {
                                                    None
                                                }
                                            },
                                        }
                                    } else {
                                        None
                                    }
                                },
                            }
                        } else {
                            None
                        }
                    },
                }
            } else {
                None
            }
        },
    }
}

} // verus!
