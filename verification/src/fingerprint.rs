//! Pod-template fingerprinting.
//!
//! A Deployment's pod specification is rendered into a canonical string,
//! hashed with SHA-256, and kept as uppercase hex. Equal specifications give
//! equal fingerprints, and distinct specifications give distinct canonical
//! strings: the encoding is length-prefixed so that no two values share an
//! encoding.

use vstd::prelude::*;

use crate::model::{Container, ContainerView, PodSpec, PodSpecView};
use sha2::Digest;
use sha2::Sha256;

verus! {

/// `n` marks followed by a terminator: a length prefix no string content can
/// imitate, since the terminator is the first character that is not a mark.
pub open spec fn enc_unary(n: nat) -> Seq<char> {
    Seq::new(n, |i: int| '#') + seq![':']
}

/// A string, preceded by its length.
pub open spec fn enc_str(s: Seq<char>) -> Seq<char> {
    enc_unary(s.len()) + s
}

/// An optional string: one tag character, then the string if present.
pub open spec fn enc_opt_str(o: Option<Seq<char>>) -> Seq<char> {
    match o {
        None => seq!['n'],
        Some(s) => seq!['s'] + enc_str(s),
    }
}

/// The strings of a sequence, one after the other.
pub open spec fn enc_str_seq(xs: Seq<Seq<char>>) -> Seq<char>
    decreases xs.len(),
{
    if xs.len() == 0 {
        Seq::empty()
    } else {
        enc_str(xs.first()) + enc_str_seq(xs.drop_first())
    }
}

/// A list of strings: its length, then its strings.
pub open spec fn enc_str_list(xs: Seq<Seq<char>>) -> Seq<char> {
    enc_unary(xs.len()) + enc_str_seq(xs)
}

/// The ports of a sequence, each in unary.
pub open spec fn enc_port_seq(ps: Seq<u16>) -> Seq<char>
    decreases ps.len(),
{
    if ps.len() == 0 {
        Seq::empty()
    } else {
        enc_unary(ps.first() as nat) + enc_port_seq(ps.drop_first())
    }
}

/// A list of ports: its length, then its ports.
pub open spec fn enc_port_list(ps: Seq<u16>) -> Seq<char> {
    enc_unary(ps.len()) + enc_port_seq(ps)
}

/// One container, all fields in a fixed order, the remainder last.
pub open spec fn enc_container(c: ContainerView) -> Seq<char> {
    enc_str(c.name) + enc_opt_str(c.image) + enc_str_list(c.command) + enc_str_list(
        c.env_from_config_maps,
    ) + enc_port_list(c.container_ports) + enc_str(c.remainder)
}

/// The containers of a sequence, one after the other.
pub open spec fn enc_container_seq(cs: Seq<ContainerView>) -> Seq<char>
    decreases cs.len(),
{
    if cs.len() == 0 {
        Seq::empty()
    } else {
        enc_container(cs.first()) + enc_container_seq(cs.drop_first())
    }
}

/// The canonical string of a pod specification: the restart policy, the
/// remainder, then the containers.
pub open spec fn canonical_of(ps: PodSpecView) -> Seq<char> {
    enc_opt_str(ps.restart_policy) + enc_str(ps.remainder) + enc_unary(ps.containers.len())
        + enc_container_seq(ps.containers)
}

/// What the SHA-256 digest of a string's bytes is; fixed by the input alone.
pub uninterp spec fn sha256_of(s: Seq<char>) -> Seq<u8>;

/// Relies on sha2's Sha256 digest: a pure function of the input bytes whose
/// output is 32 bytes long.
#[verifier::external_body]
fn sha256_digest(s: &str) -> (r: Vec<u8>)
    ensures
        r@ == sha256_of(s@),
        r@.len() == 32,
{
    Sha256::digest(s.as_bytes()).to_vec()
}

/// The sixteen hexadecimal digits, uppercase.
pub open spec fn hex_char(n: u8) -> char {
    if n == 0 {
        '0'
    } else if n == 1 {
        '1'
    } else if n == 2 {
        '2'
    } else if n == 3 {
        '3'
    } else if n == 4 {
        '4'
    } else if n == 5 {
        '5'
    } else if n == 6 {
        '6'
    } else if n == 7 {
        '7'
    } else if n == 8 {
        '8'
    } else if n == 9 {
        '9'
    } else if n == 10 {
        'A'
    } else if n == 11 {
        'B'
    } else if n == 12 {
        'C'
    } else if n == 13 {
        'D'
    } else if n == 14 {
        'E'
    } else {
        'F'
    }
}

/// Each byte as two uppercase hex digits, high nibble first.
pub open spec fn upper_hex_of(bs: Seq<u8>) -> Seq<char> {
    Seq::new(
        2 * bs.len(),
        |i: int| if i % 2 == 0 {
            hex_char(bs[i / 2] / 16)
        } else {
            hex_char(bs[i / 2] % 16)
        },
    )
}

/// One hex digit as a string slice.
fn hex_str(n: u8) -> (r: &'static str)
    requires
        n < 16,
    ensures
        r@ =~= seq![hex_char(n)],
{
    proof {
        reveal_strlit("0");
        reveal_strlit("1");
        reveal_strlit("2");
        reveal_strlit("3");
        reveal_strlit("4");
        reveal_strlit("5");
        reveal_strlit("6");
        reveal_strlit("7");
        reveal_strlit("8");
        reveal_strlit("9");
        reveal_strlit("A");
        reveal_strlit("B");
        reveal_strlit("C");
        reveal_strlit("D");
        reveal_strlit("E");
        reveal_strlit("F");
    }
    if n == 0 {
        "0"
    } else if n == 1 {
        "1"
    } else if n == 2 {
        "2"
    } else if n == 3 {
        "3"
    } else if n == 4 {
        "4"
    } else if n == 5 {
        "5"
    } else if n == 6 {
        "6"
    } else if n == 7 {
        "7"
    } else if n == 8 {
        "8"
    } else if n == 9 {
        "9"
    } else if n == 10 {
        "A"
    } else if n == 11 {
        "B"
    } else if n == 12 {
        "C"
    } else if n == 13 {
        "D"
    } else if n == 14 {
        "E"
    } else {
        "F"
    }
}

/// Render bytes as uppercase hex.
pub fn to_upper_hex(bytes: &Vec<u8>) -> (r: String)
    ensures
        r@ == upper_hex_of(bytes@),
    {
    let mut out = String::new();
    let n = bytes.len();
    let mut i: usize = 0;
    while i < n
        invariant
            n == bytes@.len(),
            0 <= i <= n,
            out@ =~= upper_hex_of(bytes@.take(i as int)),
        decreases n - i,
    {
        let b = bytes[i];
        out.append(hex_str(b / 16));
        out.append(hex_str(b % 16));
        proof {
            assert(out@ =~= upper_hex_of(bytes@.take(i + 1 as int)));
        }
        i = i + 1;
    }
    proof {
        assert(bytes@.take(n as int) =~= bytes@);
    }
    out
}

/// Append `n` marks and the terminator.
fn push_unary(out: &mut String, n: usize)
    ensures
        final(out)@ == old(out)@ + enc_unary(n as nat),
{
    let mut i: usize = 0;
    while i < n
        invariant
            0 <= i <= n,
            out@ =~= old(out)@ + Seq::new(i as nat, |j: int| '#'),
        decreases n - i,
    {
        out.append("#");
        proof {
            reveal_strlit("#");
            assert(out@ =~= old(out)@ + Seq::new((i + 1) as nat, |j: int| '#'));
        }
        i = i + 1;
    }
    out.append(":");
    proof {
        reveal_strlit(":");
        assert(out@ =~= old(out)@ + enc_unary(n as nat));
    }
}

/// Append the encoding of one string.
fn push_str_enc(out: &mut String, s: &String)
    ensures
        final(out)@ == old(out)@ + enc_str(s@),
{
    let len = s.as_str().unicode_len();
    push_unary(out, len);
    out.append(s.as_str());
    proof {
        assert(out@ =~= old(out)@ + enc_str(s@));
    }
}

/// Append the encoding of an optional string.
fn push_opt_str_enc(out: &mut String, o: &Option<String>)
    ensures
        final(out)@ == old(out)@ + enc_opt_str(crate::model::opt_str_view(*o)),
{
    match o {
        None => {
            out.append("n");
            proof {
                reveal_strlit("n");
                assert(out@ =~= old(out)@ + enc_opt_str(None));
            }
        },
        Some(s) => {
            out.append("s");
            proof {
                reveal_strlit("s");
            }
            push_str_enc(out, s);
            proof {
                assert(out@ =~= old(out)@ + enc_opt_str(Some(s@)));
            }
        },
    }
}

/// `enc_str_seq` grows at the back one string at a time.
proof fn lemma_enc_str_seq_snoc(xs: Seq<Seq<char>>, x: Seq<char>)
    ensures
        enc_str_seq(xs.push(x)) == enc_str_seq(xs) + enc_str(x),
    decreases xs.len(),
{
    if xs.len() == 0 {
        assert(xs.push(x).drop_first() =~= Seq::<Seq<char>>::empty());
        assert(xs.push(x).first() == x);
        assert(enc_str_seq(xs.push(x)) == enc_str(x) + enc_str_seq(xs.push(x).drop_first()));
        assert(enc_str(x) + Seq::<char>::empty() =~= enc_str(x));
        assert(Seq::<char>::empty() + enc_str(x) =~= enc_str(x));
        assert(enc_str_seq(xs.push(x)) == enc_str_seq(xs) + enc_str(x));
    } else {
        assert(xs.push(x).drop_first() =~= xs.drop_first().push(x));
        assert(xs.push(x).first() == xs.first());
        assert(enc_str_seq(xs.push(x)) == enc_str(xs.first()) + enc_str_seq(
            xs.drop_first().push(x),
        ));
        lemma_enc_str_seq_snoc(xs.drop_first(), x);
        assert(enc_str_seq(xs) == enc_str(xs.first()) + enc_str_seq(xs.drop_first()));
        vstd::seq_lib::lemma_concat_associative(
            enc_str(xs.first()),
            enc_str_seq(xs.drop_first()),
            enc_str(x),
        );
        assert(enc_str_seq(xs.push(x)) == enc_str_seq(xs) + enc_str(x));
    }
}

/// `enc_port_seq` grows at the back one port at a time.
proof fn lemma_enc_port_seq_snoc(ps: Seq<u16>, p: u16)
    ensures
        enc_port_seq(ps.push(p)) == enc_port_seq(ps) + enc_unary(p as nat),
    decreases ps.len(),
{
    if ps.len() == 0 {
        assert(ps.push(p).drop_first() =~= Seq::<u16>::empty());
        assert(ps.push(p).first() == p);
        assert(enc_port_seq(ps.push(p)) == enc_unary(p as nat) + enc_port_seq(
            ps.push(p).drop_first(),
        ));
        assert(enc_unary(p as nat) + Seq::<char>::empty() =~= enc_unary(p as nat));
        assert(Seq::<char>::empty() + enc_unary(p as nat) =~= enc_unary(p as nat));
        assert(enc_port_seq(ps.push(p)) == enc_port_seq(ps) + enc_unary(p as nat));
    } else {
        assert(ps.push(p).drop_first() =~= ps.drop_first().push(p));
        assert(ps.push(p).first() == ps.first());
        assert(enc_port_seq(ps.push(p)) == enc_unary(ps.first() as nat) + enc_port_seq(
            ps.drop_first().push(p),
        ));
        lemma_enc_port_seq_snoc(ps.drop_first(), p);
        assert(enc_port_seq(ps) == enc_unary(ps.first() as nat) + enc_port_seq(ps.drop_first()));
        vstd::seq_lib::lemma_concat_associative(
            enc_unary(ps.first() as nat),
            enc_port_seq(ps.drop_first()),
            enc_unary(p as nat),
        );
        assert(enc_port_seq(ps.push(p)) == enc_port_seq(ps) + enc_unary(p as nat));
    }
}

/// `enc_container_seq` grows at the back one container at a time.
proof fn lemma_enc_container_seq_snoc(cs: Seq<ContainerView>, c: ContainerView)
    ensures
        enc_container_seq(cs.push(c)) == enc_container_seq(cs) + enc_container(c),
    decreases cs.len(),
{
    if cs.len() == 0 {
        assert(cs.push(c).drop_first() =~= Seq::<ContainerView>::empty());
        assert(cs.push(c).first() == c);
        assert(enc_container_seq(cs.push(c)) == enc_container(c) + enc_container_seq(
            cs.push(c).drop_first(),
        ));
        assert(enc_container(c) + Seq::<char>::empty() =~= enc_container(c));
        assert(Seq::<char>::empty() + enc_container(c) =~= enc_container(c));
        assert(enc_container_seq(cs.push(c)) == enc_container_seq(cs) + enc_container(c));
    } else {
        assert(cs.push(c).drop_first() =~= cs.drop_first().push(c));
        assert(cs.push(c).first() == cs.first());
        assert(enc_container_seq(cs.push(c)) == enc_container(cs.first()) + enc_container_seq(
            cs.drop_first().push(c),
        ));
        lemma_enc_container_seq_snoc(cs.drop_first(), c);
        assert(enc_container_seq(cs) == enc_container(cs.first()) + enc_container_seq(
            cs.drop_first(),
        ));
        vstd::seq_lib::lemma_concat_associative(
            enc_container(cs.first()),
            enc_container_seq(cs.drop_first()),
            enc_container(c),
        );
        assert(enc_container_seq(cs.push(c)) == enc_container_seq(cs) + enc_container(c));
    }
}

/// Append the encoding of a list of strings.
fn push_str_list_enc(out: &mut String, xs: &Vec<String>)
    ensures
        final(out)@ == old(out)@ + enc_str_list(xs@.map_values(|s: String| s@)),
{
    let ghost xv = xs@.map_values(|s: String| s@);
    push_unary(out, xs.len());
    let n = xs.len();
    let mut i: usize = 0;
    while i < n
        invariant
            n == xs@.len(),
            0 <= i <= n,
            xv == xs@.map_values(|s: String| s@),
            out@ =~= old(out)@ + enc_unary(xv.len()) + enc_str_seq(xv.take(i as int)),
        decreases n - i,
    {
        push_str_enc(out, &xs[i]);
        proof {
            assert(xv.take(i + 1 as int) =~= xv.take(i as int).push(xv[i as int]));
            lemma_enc_str_seq_snoc(xv.take(i as int), xv[i as int]);
            assert(out@ =~= old(out)@ + enc_unary(xv.len()) + enc_str_seq(xv.take(i + 1 as int)));
        }
        i = i + 1;
    }
    proof {
        assert(xv.take(n as int) =~= xv);
        assert(out@ =~= old(out)@ + enc_str_list(xv));
    }
}

/// Append the encoding of a list of ports.
fn push_port_list_enc(out: &mut String, ps: &Vec<u16>)
    ensures
        final(out)@ == old(out)@ + enc_port_list(ps@),
{
    push_unary(out, ps.len());
    let n = ps.len();
    let mut i: usize = 0;
    while i < n
        invariant
            n == ps@.len(),
            0 <= i <= n,
            out@ =~= old(out)@ + enc_unary(ps@.len()) + enc_port_seq(ps@.take(i as int)),
        decreases n - i,
    {
        push_unary(out, ps[i] as usize);
        proof {
            assert(ps@.take(i + 1 as int) =~= ps@.take(i as int).push(ps@[i as int]));
            lemma_enc_port_seq_snoc(ps@.take(i as int), ps@[i as int]);
            assert(out@ =~= old(out)@ + enc_unary(ps@.len()) + enc_port_seq(
                ps@.take(i + 1 as int),
            ));
        }
        i = i + 1;
    }
    proof {
        assert(ps@.take(n as int) =~= ps@);
        assert(out@ =~= old(out)@ + enc_port_list(ps@));
    }
}

/// Append the encoding of one container.
fn push_container_enc(out: &mut String, c: &Container)
    ensures
        final(out)@ == old(out)@ + enc_container(c@),
{
    push_str_enc(out, &c.name);
    push_opt_str_enc(out, &c.image);
    push_str_list_enc(out, &c.command);
    push_str_list_enc(out, &c.env_from_config_maps);
    push_port_list_enc(out, &c.container_ports);
    push_str_enc(out, &c.remainder);
    proof {
        assert(out@ =~= old(out)@ + enc_container(c@));
    }
}

/// The canonical string of a pod specification.
pub fn canonical_string(ps: &PodSpec) -> (r: String)
    ensures
        r@ == canonical_of(ps@),
{
    let ghost cv = ps.containers@.map_values(|c: Container| c@);
    let mut out = String::new();
    push_opt_str_enc(&mut out, &ps.restart_policy);
    push_str_enc(&mut out, &ps.remainder);
    push_unary(&mut out, ps.containers.len());
    let n = ps.containers.len();
    let mut i: usize = 0;
    while i < n
        invariant
            n == ps.containers@.len(),
            0 <= i <= n,
            cv == ps.containers@.map_values(|c: Container| c@),
            out@ =~= enc_opt_str(ps@.restart_policy) + enc_str(ps@.remainder) + enc_unary(
                cv.len(),
            ) + enc_container_seq(cv.take(i as int)),
        decreases n - i,
    {
        push_container_enc(&mut out, &ps.containers[i]);
        proof {
            assert(cv.take(i + 1 as int) =~= cv.take(i as int).push(cv[i as int]));
            lemma_enc_container_seq_snoc(cv.take(i as int), cv[i as int]);
            assert(out@ =~= enc_opt_str(ps@.restart_policy) + enc_str(ps@.remainder) + enc_unary(
                cv.len(),
            ) + enc_container_seq(cv.take(i + 1 as int)));
        }
        i = i + 1;
    }
    proof {
        assert(cv.take(n as int) =~= cv);
        assert(out@ =~= canonical_of(ps@));
    }
    out
}

/// What the fingerprint of a pod specification is: the SHA-256 digest of its
/// canonical string, as uppercase hex.
pub open spec fn spec_fingerprint(ps: PodSpecView) -> Seq<char> {
    upper_hex_of(sha256_of(canonical_of(ps)))
}

/// Fingerprint a pod specification: 64 uppercase hex characters.
pub fn fingerprint(ps: &PodSpec) -> (r: String)
    ensures
        r@ == spec_fingerprint(ps@),
        r@.len() == 64,
{
    let canonical = canonical_string(ps);
    let digest = sha256_digest(canonical.as_str());
    let rendered = to_upper_hex(&digest);
    proof {
        assert(rendered@.len() == 2 * digest@.len());
    }
    rendered
}

/// A length prefix is unambiguous: two prefixed encodings that agree as
/// streams carry the same length and the same remainder.
proof fn lemma_unary_pi(m: nat, n: nat, r1: Seq<char>, r2: Seq<char>)
    requires
        enc_unary(m) + r1 == enc_unary(n) + r2,
    ensures
        m == n,
        r1 == r2,
{
    let l1 = enc_unary(m) + r1;
    let l2 = enc_unary(n) + r2;
    assert(l1[m as int] == ':');
    assert(l2[n as int] == ':');
    assert forall|i: int| 0 <= i < m implies l1[i] == '#' by {
        assert(enc_unary(m)[i] == '#');
    }
    assert forall|i: int| 0 <= i < n implies l2[i] == '#' by {
        assert(enc_unary(n)[i] == '#');
    }
    if m < n {
        assert(l1[m as int] == l2[m as int]);
        assert(false);
    }
    if n < m {
        assert(l1[n as int] == l2[n as int]);
        assert(false);
    }
    assert(enc_unary(m).len() == m + 1);
    assert(enc_unary(n).len() == n + 1);
    assert(l1.len() == m + 1 + r1.len());
    assert(l2.len() == n + 1 + r2.len());
    assert(r1.len() == r2.len());
    assert forall|i: int| 0 <= i < r1.len() implies r1[i] == r2[i] by {
        assert(l1[m + 1 + i] == r1[i]);
        assert(l2[n + 1 + i] == r2[i]);
    }
    assert(r1 =~= r2);
}

/// A string encoding is unambiguous.
proof fn lemma_str_pi(s1: Seq<char>, s2: Seq<char>, r1: Seq<char>, r2: Seq<char>)
    requires
        enc_str(s1) + r1 == enc_str(s2) + r2,
    ensures
        s1 == s2,
        r1 == r2,
{
    vstd::seq_lib::lemma_concat_associative(enc_unary(s1.len()), s1, r1);
    vstd::seq_lib::lemma_concat_associative(enc_unary(s2.len()), s2, r2);
    assert(enc_unary(s1.len()) + (s1 + r1) == enc_unary(s2.len()) + (s2 + r2));
    lemma_unary_pi(s1.len(), s2.len(), s1 + r1, s2 + r2);
    let t1 = s1 + r1;
    let t2 = s2 + r2;
    assert forall|i: int| 0 <= i < s1.len() implies s1[i] == s2[i] by {
        assert(t1[i] == s1[i]);
        assert(t2[i] == s2[i]);
    }
    assert(s1 =~= s2);
    assert forall|i: int| 0 <= i < r1.len() implies r1[i] == r2[i] by {
        assert(t1[s1.len() + i] == r1[i]);
        assert(t2[s2.len() + i] == r2[i]);
    }
    assert(r1 =~= r2);
}

/// An optional-string encoding is unambiguous.
proof fn lemma_opt_str_pi(
    o1: Option<Seq<char>>,
    o2: Option<Seq<char>>,
    r1: Seq<char>,
    r2: Seq<char>,
)
    requires
        enc_opt_str(o1) + r1 == enc_opt_str(o2) + r2,
    ensures
        o1 == o2,
        r1 == r2,
{
    let l1 = enc_opt_str(o1) + r1;
    let l2 = enc_opt_str(o2) + r2;
    match (o1, o2) {
        (None, None) => {
            assert(enc_opt_str(o1).len() == 1);
            assert(enc_opt_str(o2).len() == 1);
            assert(l1.len() == 1 + r1.len());
            assert(l2.len() == 1 + r2.len());
            assert(r1.len() == r2.len());
            assert forall|i: int| 0 <= i < r1.len() implies r1[i] == r2[i] by {
                assert(l1[1 + i] == r1[i]);
                assert(l2[1 + i] == r2[i]);
            }
            assert(r1 =~= r2);
        },
        (None, Some(s2)) => {
            assert(l1[0] == 'n');
            assert(l2[0] == 's');
        },
        (Some(s1), None) => {
            assert(l1[0] == 's');
            assert(l2[0] == 'n');
        },
        (Some(s1), Some(s2)) => {
            vstd::seq_lib::lemma_concat_associative(seq!['s'], enc_str(s1), r1);
            vstd::seq_lib::lemma_concat_associative(seq!['s'], enc_str(s2), r2);
            assert(seq!['s'] + (enc_str(s1) + r1) == seq!['s'] + (enc_str(s2) + r2));
            let t1 = enc_str(s1) + r1;
            let t2 = enc_str(s2) + r2;
            assert(t1.len() == t2.len());
            assert forall|i: int| 0 <= i < t1.len() implies t1[i] == t2[i] by {
                assert((seq!['s'] + t1)[1 + i] == t1[i]);
                assert((seq!['s'] + t2)[1 + i] == t2[i]);
            }
            assert(t1 =~= t2);
            lemma_str_pi(s1, s2, r1, r2);
        },
    }
}

/// A string-sequence encoding is unambiguous, the count being known.
proof fn lemma_str_seq_pi(xs: Seq<Seq<char>>, ys: Seq<Seq<char>>, r1: Seq<char>, r2: Seq<char>)
    requires
        xs.len() == ys.len(),
        enc_str_seq(xs) + r1 == enc_str_seq(ys) + r2,
    ensures
        xs == ys,
        r1 == r2,
    decreases xs.len(),
{
    if xs.len() == 0 {
        assert(enc_str_seq(xs) + r1 =~= r1);
        assert(enc_str_seq(ys) + r2 =~= r2);
        assert(xs =~= ys);
    } else {
        assert(enc_str_seq(xs) == enc_str(xs.first()) + enc_str_seq(xs.drop_first()));
        assert(enc_str_seq(ys) == enc_str(ys.first()) + enc_str_seq(ys.drop_first()));
        vstd::seq_lib::lemma_concat_associative(
            enc_str(xs.first()),
            enc_str_seq(xs.drop_first()),
            r1,
        );
        vstd::seq_lib::lemma_concat_associative(
            enc_str(ys.first()),
            enc_str_seq(ys.drop_first()),
            r2,
        );
        lemma_str_pi(
            xs.first(),
            ys.first(),
            enc_str_seq(xs.drop_first()) + r1,
            enc_str_seq(ys.drop_first()) + r2,
        );
        lemma_str_seq_pi(xs.drop_first(), ys.drop_first(), r1, r2);
        assert(xs =~= ys) by {
            assert forall|i: int| 0 <= i < xs.len() implies xs[i] == ys[i] by {
                if i > 0 {
                    assert(xs.drop_first()[i - 1] == ys.drop_first()[i - 1]);
                }
            }
        }
    }
}

/// A string-list encoding is unambiguous.
proof fn lemma_str_list_pi(xs: Seq<Seq<char>>, ys: Seq<Seq<char>>, r1: Seq<char>, r2: Seq<char>)
    requires
        enc_str_list(xs) + r1 == enc_str_list(ys) + r2,
    ensures
        xs == ys,
        r1 == r2,
{
    vstd::seq_lib::lemma_concat_associative(enc_unary(xs.len()), enc_str_seq(xs), r1);
    vstd::seq_lib::lemma_concat_associative(enc_unary(ys.len()), enc_str_seq(ys), r2);
    lemma_unary_pi(xs.len(), ys.len(), enc_str_seq(xs) + r1, enc_str_seq(ys) + r2);
    lemma_str_seq_pi(xs, ys, r1, r2);
}

/// A port-sequence encoding is unambiguous, the count being known.
proof fn lemma_port_seq_pi(ps: Seq<u16>, qs: Seq<u16>, r1: Seq<char>, r2: Seq<char>)
    requires
        ps.len() == qs.len(),
        enc_port_seq(ps) + r1 == enc_port_seq(qs) + r2,
    ensures
        ps == qs,
        r1 == r2,
    decreases ps.len(),
{
    if ps.len() == 0 {
        assert(enc_port_seq(ps) + r1 =~= r1);
        assert(enc_port_seq(qs) + r2 =~= r2);
        assert(ps =~= qs);
    } else {
        assert(enc_port_seq(ps) == enc_unary(ps.first() as nat) + enc_port_seq(ps.drop_first()));
        assert(enc_port_seq(qs) == enc_unary(qs.first() as nat) + enc_port_seq(qs.drop_first()));
        vstd::seq_lib::lemma_concat_associative(
            enc_unary(ps.first() as nat),
            enc_port_seq(ps.drop_first()),
            r1,
        );
        vstd::seq_lib::lemma_concat_associative(
            enc_unary(qs.first() as nat),
            enc_port_seq(qs.drop_first()),
            r2,
        );
        lemma_unary_pi(
            ps.first() as nat,
            qs.first() as nat,
            enc_port_seq(ps.drop_first()) + r1,
            enc_port_seq(qs.drop_first()) + r2,
        );
        lemma_port_seq_pi(ps.drop_first(), qs.drop_first(), r1, r2);
        assert(ps =~= qs) by {
            assert forall|i: int| 0 <= i < ps.len() implies ps[i] == qs[i] by {
                if i > 0 {
                    assert(ps.drop_first()[i - 1] == qs.drop_first()[i - 1]);
                }
            }
        }
    }
}

/// A port-list encoding is unambiguous.
proof fn lemma_port_list_pi(ps: Seq<u16>, qs: Seq<u16>, r1: Seq<char>, r2: Seq<char>)
    requires
        enc_port_list(ps) + r1 == enc_port_list(qs) + r2,
    ensures
        ps == qs,
        r1 == r2,
{
    vstd::seq_lib::lemma_concat_associative(enc_unary(ps.len()), enc_port_seq(ps), r1);
    vstd::seq_lib::lemma_concat_associative(enc_unary(qs.len()), enc_port_seq(qs), r2);
    lemma_unary_pi(ps.len(), qs.len(), enc_port_seq(ps) + r1, enc_port_seq(qs) + r2);
    lemma_port_seq_pi(ps, qs, r1, r2);
}

/// A container encoding is unambiguous.
proof fn lemma_container_pi(c1: ContainerView, c2: ContainerView, r1: Seq<char>, r2: Seq<char>)
    requires
        enc_container(c1) + r1 == enc_container(c2) + r2,
    ensures
        c1 == c2,
        r1 == r2,
{
    let a1 = enc_str(c1.name);
    let b1 = enc_opt_str(c1.image);
    let d1 = enc_str_list(c1.command);
    let e1 = enc_str_list(c1.env_from_config_maps);
    let f1 = enc_port_list(c1.container_ports);
    let g1 = enc_str(c1.remainder);
    let a2 = enc_str(c2.name);
    let b2 = enc_opt_str(c2.image);
    let d2 = enc_str_list(c2.command);
    let e2 = enc_str_list(c2.env_from_config_maps);
    let f2 = enc_port_list(c2.container_ports);
    let g2 = enc_str(c2.remainder);
    assert(enc_container(c1) + r1 =~= a1 + (b1 + (d1 + (e1 + (f1 + (g1 + r1))))));
    assert(enc_container(c2) + r2 =~= a2 + (b2 + (d2 + (e2 + (f2 + (g2 + r2))))));
    lemma_str_pi(
        c1.name,
        c2.name,
        b1 + (d1 + (e1 + (f1 + (g1 + r1)))),
        b2 + (d2 + (e2 + (f2 + (g2 + r2)))),
    );
    lemma_opt_str_pi(
        c1.image,
        c2.image,
        d1 + (e1 + (f1 + (g1 + r1))),
        d2 + (e2 + (f2 + (g2 + r2))),
    );
    lemma_str_list_pi(c1.command, c2.command, e1 + (f1 + (g1 + r1)), e2 + (f2 + (g2 + r2)));
    lemma_str_list_pi(
        c1.env_from_config_maps,
        c2.env_from_config_maps,
        f1 + (g1 + r1),
        f2 + (g2 + r2),
    );
    lemma_port_list_pi(c1.container_ports, c2.container_ports, g1 + r1, g2 + r2);
    lemma_str_pi(c1.remainder, c2.remainder, r1, r2);
}

/// A container-sequence encoding is unambiguous, the count being known.
proof fn lemma_container_seq_pi(
    cs: Seq<ContainerView>,
    ds: Seq<ContainerView>,
    r1: Seq<char>,
    r2: Seq<char>,
)
    requires
        cs.len() == ds.len(),
        enc_container_seq(cs) + r1 == enc_container_seq(ds) + r2,
    ensures
        cs == ds,
        r1 == r2,
    decreases cs.len(),
{
    if cs.len() == 0 {
        assert(enc_container_seq(cs) + r1 =~= r1);
        assert(enc_container_seq(ds) + r2 =~= r2);
        assert(cs =~= ds);
    } else {
        assert(enc_container_seq(cs) == enc_container(cs.first()) + enc_container_seq(
            cs.drop_first(),
        ));
        assert(enc_container_seq(ds) == enc_container(ds.first()) + enc_container_seq(
            ds.drop_first(),
        ));
        vstd::seq_lib::lemma_concat_associative(
            enc_container(cs.first()),
            enc_container_seq(cs.drop_first()),
            r1,
        );
        vstd::seq_lib::lemma_concat_associative(
            enc_container(ds.first()),
            enc_container_seq(ds.drop_first()),
            r2,
        );
        lemma_container_pi(
            cs.first(),
            ds.first(),
            enc_container_seq(cs.drop_first()) + r1,
            enc_container_seq(ds.drop_first()) + r2,
        );
        lemma_container_seq_pi(cs.drop_first(), ds.drop_first(), r1, r2);
        assert(cs =~= ds) by {
            assert forall|i: int| 0 <= i < cs.len() implies cs[i] == ds[i] by {
                if i > 0 {
                    assert(cs.drop_first()[i - 1] == ds.drop_first()[i - 1]);
                }
            }
        }
    }
}

/// No two pod specifications share a canonical string: any change to the
/// specification changes its canonical serialization, so the fingerprints
/// of two distinct specifications are digests of distinct inputs.
pub proof fn lemma_canonical_injective(p1: PodSpecView, p2: PodSpecView)
    requires
        canonical_of(p1) == canonical_of(p2),
    ensures
        p1 == p2,
{
    let empty = Seq::<char>::empty();
    assert(canonical_of(p1) + empty =~= enc_opt_str(p1.restart_policy) + (enc_str(p1.remainder)
        + (enc_unary(p1.containers.len()) + (enc_container_seq(p1.containers) + empty))));
    assert(canonical_of(p2) + empty =~= enc_opt_str(p2.restart_policy) + (enc_str(p2.remainder)
        + (enc_unary(p2.containers.len()) + (enc_container_seq(p2.containers) + empty))));
    assert(canonical_of(p1) + empty == canonical_of(p2) + empty) by {
        assert(canonical_of(p1) + empty =~= canonical_of(p2) + empty);
    }
    lemma_opt_str_pi(
        p1.restart_policy,
        p2.restart_policy,
        enc_str(p1.remainder) + (enc_unary(p1.containers.len()) + (enc_container_seq(
            p1.containers,
        ) + empty)),
        enc_str(p2.remainder) + (enc_unary(p2.containers.len()) + (enc_container_seq(
            p2.containers,
        ) + empty)),
    );
    lemma_str_pi(
        p1.remainder,
        p2.remainder,
        enc_unary(p1.containers.len()) + (enc_container_seq(p1.containers) + empty),
        enc_unary(p2.containers.len()) + (enc_container_seq(p2.containers) + empty),
    );
    lemma_unary_pi(
        p1.containers.len(),
        p2.containers.len(),
        enc_container_seq(p1.containers) + empty,
        enc_container_seq(p2.containers) + empty,
    );
    lemma_container_seq_pi(p1.containers, p2.containers, empty, empty);
}

/// Change detection at the encoding stage: two distinct pod
/// specifications render to distinct canonical strings, so their
/// fingerprints are the digests of distinct inputs.
pub proof fn lemma_fingerprint_change_detection(p1: PodSpecView, p2: PodSpecView)
    requires
        p1 != p2,
    ensures
        canonical_of(p1) != canonical_of(p2),
{
    if canonical_of(p1) == canonical_of(p2) {
        lemma_canonical_injective(p1, p2);
    }
}

/// The fingerprint is a function of the pod specification alone: a
/// Deployment and any copy of it, or any Deployment whose status alone
/// moved, fingerprint alike.
pub proof fn lemma_fingerprint_depends_on_pod_spec_only(
    d1: crate::model::DeploymentView,
    d2: crate::model::DeploymentView,
)
    requires
        d1.pod_spec() == d2.pod_spec(),
    ensures
        crate::utils::spec_pod_template_hash(d1) == crate::utils::spec_pod_template_hash(d2),
{
}

} // verus!
