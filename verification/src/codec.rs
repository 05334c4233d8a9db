//! The object codec: canonical framing of a payload under a kind/length header
//! and the exact decoding of such a frame, including truncation and
//! trailing-data detection.

use vstd::prelude::*;

use crate::cli::Kind;
use crate::error::ObjectError;

verus! {

/// The ASCII name under which a kind appears in a frame header.
pub open spec fn kind_name(k: Kind) -> Seq<u8> {
    match k {
        Kind::Blob => seq![98u8, 108u8, 111u8, 98u8],
        Kind::Tree => seq![116u8, 114u8, 101u8, 101u8],
    }
}

/// An ASCII decimal digit.
pub open spec fn is_ascii_digit(b: u8) -> bool {
    48 <= b && b <= 57
}

/// Every byte of the sequence is an ASCII decimal digit.
pub open spec fn all_digits(s: Seq<u8>) -> bool {
    forall|i: int| 0 <= i < s.len() ==> is_ascii_digit(s[i])
}

/// The value of a sequence of ASCII decimal digits, most significant first.
pub open spec fn dec_val(s: Seq<u8>) -> int
    decreases s.len(),
{
    if s.len() == 0 {
        0
    } else {
        dec_val(s.drop_last()) * 10 + (s.last() - 48)
    }
}

/// The shortest ASCII decimal rendering of `n` (no sign, no leading zeros,
/// except that zero itself is rendered as one digit).
pub open spec fn dec_rep(n: nat) -> Seq<u8>
    decreases n,
{
    if n < 10 {
        seq![(48 + n) as u8]
    } else {
        dec_rep(n / 10).push((48 + n % 10) as u8)
    }
}

/// A decimal rendering is nonempty and consists of digits alone.
pub proof fn lemma_dec_rep_digits(n: nat)
    ensures
        dec_rep(n).len() >= 1,
        all_digits(dec_rep(n)),
    decreases n,
{
    if n >= 10 {
        lemma_dec_rep_digits(n / 10);
        assert(dec_rep(n) == dec_rep(n / 10).push((48 + n % 10) as u8));
        assert(is_ascii_digit((48 + n % 10) as u8));
        assert forall|i: int| 0 <= i < dec_rep(n).len() implies is_ascii_digit(dec_rep(n)[i]) by {
            if i < dec_rep(n / 10).len() {
                assert(dec_rep(n)[i] == dec_rep(n / 10)[i]);
            }
        }
    }
}

/// Reading a decimal rendering back yields the rendered value.
pub proof fn lemma_dec_rep_val(n: nat)
    ensures
        dec_val(dec_rep(n)) == n,
    decreases n,
{
    if n < 10 {
        assert(dec_rep(n) == seq![(48 + n) as u8]);
        assert((48 + n) as u8 == 48 + n);
        assert(dec_rep(n).drop_last() =~= Seq::<u8>::empty());
        assert(dec_rep(n).last() == (48 + n) as u8);
        assert(dec_val(dec_rep(n)) == dec_val(Seq::<u8>::empty()) * 10 + ((48 + n) as u8 - 48));
        assert(dec_val(dec_rep(n)) == n);
    } else {
        lemma_dec_rep_val(n / 10);
        let d = (48 + n % 10) as u8;
        assert(d == 48 + n % 10);
        assert(dec_rep(n) == dec_rep(n / 10).push(d));
        assert(dec_rep(n).drop_last() =~= dec_rep(n / 10));
        assert(dec_rep(n).last() == d);
        assert(dec_val(dec_rep(n)) == dec_val(dec_rep(n / 10)) * 10 + (d - 48));
        assert((n / 10) * 10 + n % 10 == n) by {
            vstd::arithmetic::div_mod::lemma_fundamental_div_mod(n as int, 10);
        }
        assert(dec_val(dec_rep(n)) == n);
    }
}

/// A digit string's value does not go negative.
pub proof fn lemma_dec_val_nonneg(s: Seq<u8>)
    requires
        all_digits(s),
    ensures
        dec_val(s) >= 0,
    decreases s.len(),
{
    if s.len() > 0 {
        assert(all_digits(s.drop_last())) by {
            assert(forall|i: int| 0 <= i < s.len() - 1 ==> s.drop_last()[i] == s[i]);
        }
        lemma_dec_val_nonneg(s.drop_last());
    }
}

/// Extending a digit string on the right never lowers its value.
pub proof fn lemma_dec_val_prefix_le(s: Seq<u8>, i: int)
    requires
        all_digits(s),
        0 <= i <= s.len(),
    ensures
        dec_val(s.take(i)) <= dec_val(s),
    decreases s.len() - i,
{
    if i < s.len() {
        lemma_dec_val_prefix_le(s, i + 1);
        let t = s.take(i + 1);
        assert(t.drop_last() =~= s.take(i));
        assert(all_digits(s.take(i))) by {
            assert(forall|j: int| 0 <= j < i ==> s.take(i)[j] == s[j]);
        }
        lemma_dec_val_nonneg(s.take(i));
        assert(dec_val(t) == dec_val(s.take(i)) * 10 + (t.last() - 48));
        assert(dec_val(s.take(i)) * 10 >= dec_val(s.take(i)));
        assert(is_ascii_digit(s[i]));
        assert(t.last() == s[i]);
    } else {
        assert(s.take(i) =~= s);
    }
}

/// The header of a frame for kind `k` and a payload of `len` bytes: the ASCII
/// kind name, one space, the ASCII decimal payload length, one NUL.
pub open spec fn header_of(k: Kind, len: nat) -> Seq<u8> {
    kind_name(k) + seq![32u8] + dec_rep(len) + seq![0u8]
}

/// The canonical frame: header followed by the raw payload bytes verbatim.
pub open spec fn frame_of(k: Kind, p: Seq<u8>) -> Seq<u8> {
    header_of(k, p.len()) + p
}

/// Append the decimal rendering of `n` to `out`.
fn push_decimal(n: usize, out: &mut Vec<u8>)
    ensures
        final(out)@ == old(out)@ + dec_rep(n as nat),
    decreases n,
{
    if n >= 10 {
        push_decimal(n / 10, out);
    }
    let d: u8 = (n % 10) as u8;
    out.push(48 + d);
    proof {
        if n < 10 {
            assert(old(out)@ + dec_rep(n as nat) =~= old(out)@.push((48 + n as nat) as u8));
        } else {
            assert((n / 10) as nat == n as nat / 10);
            assert(old(out)@ + dec_rep(n as nat) =~= (old(out)@ + dec_rep(n as nat / 10)).push(
                (48 + n as nat % 10) as u8,
            ));
        }
    }
}

/// Build the canonical frame for `kind` and `payload`.
pub fn frame(kind: Kind, payload: &Vec<u8>) -> (r: Vec<u8>)
    ensures
        r@ == frame_of(kind, payload@),
{
    let mut out: Vec<u8> = Vec::new();
    match kind {
        Kind::Blob => {
            out.push(98u8);
            out.push(108u8);
            out.push(111u8);
            out.push(98u8);
        },
        Kind::Tree => {
            out.push(116u8);
            out.push(114u8);
            out.push(101u8);
            out.push(101u8);
        },
    }
    assert(out@ =~= kind_name(kind));
    out.push(32u8);
    assert(out@ =~= kind_name(kind) + seq![32u8]);
    push_decimal(payload.len(), &mut out);
    out.push(0);
    assert(out@ =~= header_of(kind, payload@.len()));
    let mut i: usize = 0;
    while i < payload.len()
        invariant
            0 <= i <= payload@.len(),
            out@ == header_of(kind, payload@.len()) + payload@.take(i as int),
        decreases payload@.len() - i,
    {
        out.push(payload[i]);
        proof {
            assert(out@ =~= header_of(kind, payload@.len()) + payload@.take(i as int + 1));
        }
        i += 1;
    }
    proof {
        assert(payload@.take(payload@.len() as int) =~= payload@);
    }
    out
}

/// The index of the first occurrence of `b` in `s`, if there is one.
pub open spec fn first_index_of(s: Seq<u8>, b: u8) -> Option<int>
    decreases s.len(),
{
    if s.len() == 0 {
        None
    } else if s[0] == b {
        Some(0)
    } else {
        match first_index_of(s.drop_first(), b) {
            Some(i) => Some(i + 1),
            None => None,
        }
    }
}

/// What `first_index_of` finds is the first occurrence; `None` means none.
pub proof fn lemma_first_index_of(s: Seq<u8>, b: u8)
    ensures
        match first_index_of(s, b) {
            Some(i) => 0 <= i < s.len() && s[i] == b && (forall|j: int| 0 <= j < i ==> s[j] != b),
            None => forall|j: int| 0 <= j < s.len() ==> s[j] != b,
        },
    decreases s.len(),
{
    if s.len() > 0 && s[0] != b {
        lemma_first_index_of(s.drop_first(), b);
        match first_index_of(s.drop_first(), b) {
            Some(i) => {
                assert(first_index_of(s, b) == Some(i + 1));
                assert(s[i + 1] == s.drop_first()[i]);
                assert forall|j: int| 0 <= j < i + 1 implies s[j] != b by {
                    if j > 0 {
                        assert(s.drop_first()[j - 1] != b);
                        assert(s.drop_first()[j - 1] == s[j]);
                    }
                }
            },
            None => {
                assert forall|j: int| 0 <= j < s.len() implies s[j] != b by {
                    if j > 0 {
                        assert(s.drop_first()[j - 1] != b);
                        assert(s.drop_first()[j - 1] == s[j]);
                    }
                }
            },
        }
    }
}

/// A first occurrence pins `first_index_of` down.
pub proof fn lemma_first_index_at(s: Seq<u8>, b: u8, i: int)
    requires
        0 <= i < s.len(),
        s[i] == b,
        forall|j: int| 0 <= j < i ==> s[j] != b,
    ensures
        first_index_of(s, b) == Some(i),
{
    lemma_first_index_of(s, b);
    match first_index_of(s, b) {
        Some(x) => {
            if x < i {
                assert(s[x] != b);
                assert(false);
            } else if x > i {
                assert(s[i] != b);
                assert(false);
            }
        },
        None => {
            assert(s[i] != b);
            assert(false);
        },
    }
}

/// The outcome of parsing a frame header, before any length check against the
/// bytes that follow: the kind, the declared payload length, and the number of
/// header bytes (separating NUL included). Fails with `MalformedHeader` when
/// there is no NUL, no space before it, or the length token is empty, has a
/// non-digit, or does not fit the machine's size type; with `UnknownKind` when
/// the kind token is not a recognized kind name.
pub open spec fn parse_header_spec(s: Seq<u8>) -> Result<(Kind, int, int), ObjectError> {
    match first_index_of(s, 0u8) {
        None => Err(ObjectError::MalformedHeader),
        Some(n) => {
            let header = s.take(n);
            match first_index_of(header, 32u8) {
                None => Err(ObjectError::MalformedHeader),
                Some(sp) => {
                    let kind_tok = header.take(sp);
                    let len_tok = header.subrange(sp + 1, n);
                    if kind_tok == kind_name(Kind::Blob) || kind_tok == kind_name(Kind::Tree) {
                        let k = if kind_tok == kind_name(Kind::Blob) {
                            Kind::Blob
                        } else {
                            Kind::Tree
                        };
                        if len_tok.len() > 0 && all_digits(len_tok) && dec_val(len_tok)
                            <= usize::MAX as int {
                            Ok((k, dec_val(len_tok), n + 1))
                        } else {
                            Err(ObjectError::MalformedHeader)
                        }
                    } else {
                        Err(ObjectError::UnknownKind)
                    }
                },
            }
        },
    }
}

/// The outcome of decoding a whole decompressed frame: the header parse, then
/// the declared length held against the bytes that actually follow.
pub open spec fn decode_spec(s: Seq<u8>) -> Result<(Kind, Seq<u8>), ObjectError> {
    match parse_header_spec(s) {
        Err(e) => Err(e),
        Ok((k, len, hlen)) => {
            if s.len() - hlen < len {
                Err(ObjectError::TruncatedObject)
            } else if s.len() - hlen > len {
                Err(ObjectError::TrailingData)
            } else {
                Ok((k, s.subrange(hlen, s.len() as int)))
            }
        },
    }
}

/// A parsed frame header: the kind, the payload length it declares, and how
/// many bytes the header itself occupies (separating NUL included).
pub struct Header {
    pub kind: Kind,
    pub declared_len: usize,
    pub header_len: usize,
}

/// Parse the header at the front of a decompressed frame.
#[verifier::loop_isolation(false)]
pub fn parse_header(data: &Vec<u8>) -> (r: Result<Header, ObjectError>)
    ensures
        match r {
            Ok(h) => parse_header_spec(data@) == Ok::<_, ObjectError>(
                (h.kind, h.declared_len as int, h.header_len as int),
            ) && h.header_len <= data@.len(),
            Err(e) => parse_header_spec(data@) == Err::<(Kind, int, int), _>(e),
        },
{
    let len = data.len();
    let mut n: usize = 0;
    while n < len && data[n] != 0
        invariant
            0 <= n <= len,
            len == data@.len(),
            forall|j: int| 0 <= j < n ==> data@[j] != 0,
        decreases len - n,
    {
        n += 1;
    }
    if n == len {
        proof {
            lemma_first_index_of(data@, 0u8);
            if first_index_of(data@, 0u8) is Some {
                let i = first_index_of(data@, 0u8)->Some_0;
                assert(data@[i] != 0);
                assert(false);
            }
        }
        return Err(ObjectError::MalformedHeader);
    }
    proof {
        lemma_first_index_at(data@, 0u8, n as int);
    }
    let ghost header: Seq<u8> = data@.take(n as int);
    proof {
        assert(forall|j: int| 0 <= j < n ==> header[j] == data@[j]);
    }
    let mut sp: usize = 0;
    while sp < n && data[sp] != 32
        invariant
            0 <= sp <= n < len,
            len == data@.len(),
            forall|j: int| 0 <= j < sp ==> data@[j] != 32,
        decreases n - sp,
    {
        sp += 1;
    }
    if sp == n {
        proof {
            lemma_first_index_of(header, 32u8);
            if first_index_of(header, 32u8) is Some {
                let i = first_index_of(header, 32u8)->Some_0;
                assert(header[i] != 32);
                assert(false);
            }
        }
        return Err(ObjectError::MalformedHeader);
    }
    proof {
        lemma_first_index_at(header, 32u8, sp as int);
    }
    let ghost kind_tok: Seq<u8> = header.take(sp as int);
    let ghost len_tok: Seq<u8> = header.subrange(sp as int + 1, n as int);
    proof {
        assert(forall|j: int| 0 <= j < sp ==> kind_tok[j] == data@[j]);
        assert(forall|j: int| 0 <= j < n - sp - 1 ==> len_tok[j] == data@[sp + 1 + j]);
    }
    let is_blob = sp == 4 && data[0] == 98 && data[1] == 108 && data[2] == 111 && data[3] == 98;
    let is_tree = sp == 4 && data[0] == 116 && data[1] == 114 && data[2] == 101 && data[3] == 101;
    if !is_blob && !is_tree {
        proof {
            assert(kind_tok != kind_name(Kind::Blob)) by {
                if kind_tok == kind_name(Kind::Blob) {
                    assert(kind_tok.len() == 4);
                    assert(data@[0] == kind_tok[0] && kind_tok[0] == 98);
                    assert(data@[1] == kind_tok[1] && kind_tok[1] == 108);
                    assert(data@[2] == kind_tok[2] && kind_tok[2] == 111);
                    assert(data@[3] == kind_tok[3] && kind_tok[3] == 98);
                    assert(false);
                }
            }
            assert(kind_tok != kind_name(Kind::Tree)) by {
                if kind_tok == kind_name(Kind::Tree) {
                    assert(kind_tok.len() == 4);
                    assert(data@[0] == kind_tok[0] && kind_tok[0] == 116);
                    assert(data@[1] == kind_tok[1] && kind_tok[1] == 114);
                    assert(data@[2] == kind_tok[2] && kind_tok[2] == 101);
                    assert(data@[3] == kind_tok[3] && kind_tok[3] == 101);
                    assert(false);
                }
            }
        }
        return Err(ObjectError::UnknownKind);
    }
    let kind = if is_blob {
        Kind::Blob
    } else {
        Kind::Tree
    };
    proof {
        if is_blob {
            assert(kind_tok =~= kind_name(Kind::Blob));
        } else {
            assert(kind_tok =~= kind_name(Kind::Tree));
            assert(kind_tok != kind_name(Kind::Blob));
        }
    }
    if sp + 1 == n {
        proof {
            assert(len_tok.len() == 0);
        }
        return Err(ObjectError::MalformedHeader);
    }
    let mut val: usize = 0;
    let mut i: usize = sp + 1;
    while i < n
        invariant
            sp + 1 <= i <= n < len,
            len == data@.len(),
            header == data@.take(n as int),
            len_tok == header.subrange(sp as int + 1, n as int),
            forall|j: int| 0 <= j < i - sp - 1 ==> is_ascii_digit(len_tok[j]),
            val == dec_val(len_tok.take(i - sp - 1)),
        decreases n - i,
    {
        let b = data[i];
        proof {
            assert(len_tok[i - sp - 1] == data@[i as int]);
        }
        if b < 48 || b > 57 {
            proof {
                assert(!is_ascii_digit(len_tok[i - sp - 1]));
                assert(!all_digits(len_tok));
            }
            return Err(ObjectError::MalformedHeader);
        }
        let d = (b - 48) as usize;
        let ghost prefix: Seq<u8> = len_tok.take(i - sp - 1);
        let ghost next: Seq<u8> = len_tok.take(i - sp);
        proof {
            assert(next.drop_last() =~= prefix);
            assert(next.last() == len_tok[i - sp - 1]);
            assert(dec_val(next) == dec_val(prefix) * 10 + d);
        }
        if val > (usize::MAX - d) / 10 {
            proof {
                vstd::arithmetic::div_mod::lemma_fundamental_div_mod(
                    usize::MAX as int - d as int,
                    10,
                );
                assert(dec_val(next) > usize::MAX as int);
                if all_digits(len_tok) {
                    lemma_dec_val_prefix_le(len_tok, i - sp);
                    assert(dec_val(len_tok) > usize::MAX as int);
                }
            }
            return Err(ObjectError::MalformedHeader);
        }
        val = val * 10 + d;
        i += 1;
    }
    proof {
        assert(len_tok.take(n - sp - 1) =~= len_tok);
        assert(all_digits(len_tok));
        assert(len_tok.len() > 0);
        assert(dec_val(len_tok) == val as int);
    }
    Ok(Header { kind, declared_len: val, header_len: n + 1 })
}

/// Decode a whole decompressed frame: parse its header, then hold the declared
/// length against the bytes that follow, rejecting short and oversize frames.
#[verifier::loop_isolation(false)]
pub fn decode_object(data: &Vec<u8>) -> (r: Result<(Kind, Vec<u8>), ObjectError>)
    ensures
        match r {
            Ok((k, p)) => decode_spec(data@) == Ok::<_, ObjectError>((k, p@)),
            Err(e) => decode_spec(data@) == Err::<(Kind, Seq<u8>), _>(e),
        },
{
    let h = match parse_header(data) {
        Ok(h) => h,
        Err(e) => {
            return Err(e);
        },
    };
    let rest = data.len() - h.header_len;
    if rest < h.declared_len {
        return Err(ObjectError::TruncatedObject);
    }
    if rest > h.declared_len {
        return Err(ObjectError::TrailingData);
    }
    let mut payload: Vec<u8> = Vec::new();
    let mut i: usize = h.header_len;
    while i < data.len()
        invariant
            h.header_len <= i <= data@.len(),
            payload@ == data@.subrange(h.header_len as int, i as int),
        decreases data@.len() - i,
    {
        payload.push(data[i]);
        proof {
            assert(payload@ =~= data@.subrange(h.header_len as int, i as int + 1));
        }
        i += 1;
    }
    Ok((h.kind, payload))
}

/// Round-trip law at the frame level: decoding the canonical frame of any kind
/// and payload yields that kind and payload back, byte for byte.
pub proof fn lemma_frame_decode_round_trip(k: Kind, p: Seq<u8>)
    requires
        p.len() <= usize::MAX,
    ensures
        decode_spec(frame_of(k, p)) == Ok::<_, ObjectError>((k, p)),
{
    let name = kind_name(k);
    let d = dec_rep(p.len());
    let f = frame_of(k, p);
    let h = name.len() + 1 + d.len();
    lemma_dec_rep_digits(p.len());
    lemma_dec_rep_val(p.len());
    assert(f.len() == h + 1 + p.len());
    assert forall|i: int| 0 <= i < name.len() implies f[i] == name[i] by {}
    assert(f[name.len() as int] == 32);
    assert forall|j: int| 0 <= j < d.len() implies f[name.len() + 1 + j] == d[j] by {}
    assert(f[h as int] == 0);
    assert forall|j: int| 0 <= j < p.len() implies f[h + 1 + j] == p[j] by {}
    assert forall|i: int| 0 <= i < name.len() implies name[i] != 0 && name[i] != 32 by {
        match k {
            Kind::Blob => {},
            Kind::Tree => {},
        }
    }
    assert forall|j: int| 0 <= j < h implies f[j] != 0 by {
        if j < name.len() {
        } else if j == name.len() {
        } else {
            assert(f[j] == d[j - name.len() - 1]);
            assert(is_ascii_digit(d[j - name.len() - 1]));
        }
    }
    lemma_first_index_at(f, 0u8, h as int);
    let header = f.take(h as int);
    assert forall|j: int| 0 <= j < name.len() implies header[j] != 32 by {}
    assert(header[name.len() as int] == 32);
    lemma_first_index_at(header, 32u8, name.len() as int);
    let kind_tok = header.take(name.len() as int);
    assert(kind_tok =~= name);
    assert(kind_name(Kind::Blob)[0] != kind_name(Kind::Tree)[0]);
    let len_tok = header.subrange(name.len() as int + 1, h as int);
    assert(len_tok =~= d);
    assert(parse_header_spec(f) == Ok::<_, ObjectError>((k, p.len() as int, h as int + 1)));
    assert(f.subrange(h as int + 1, f.len() as int) =~= p);
    assert(decode_spec(f) == Ok::<_, ObjectError>((k, p)));
}

} // verus!
