//! Preservation tokens and escapes: a token stands for a protected region in
//! the text a parser sees; scalars that could be mistaken for token syntax
//! are escaped. Positions and lengths count scalar values.

use vstd::prelude::*;
use crate::preservation::model::PreservationError;
use crate::text::{chars_of, string_of};

verus! {

pub const ESCAPE_MARKER: char = '\u{f0000}';
pub const TOKEN_START: char = '\u{f0001}';
pub const TOKEN_END: char = '\u{f0002}';
pub const ESCAPED_ESCAPE: char = '\u{f0003}';
pub const ESCAPED_START: char = '\u{f0004}';
pub const ESCAPED_END: char = '\u{f0005}';

/// The scalar standing for index byte 0; byte `b` is this plus `b`.
pub const INDEX_SCALAR_START: u32 = 0xF0100;

/// Bytes of a token's index.
pub const INDEX_WIDTH: usize = 8;

/// Scalars in a token: start, index bytes, end.
pub const TOKEN_LENGTH: usize = 10;

pub const MALFORMED_TOKEN: &'static str = "malformed preservation token";
pub const MALFORMED_TOKEN_INDEX: &'static str = "malformed preservation token index";
pub const INDEX_EXCEEDS_PLATFORM: &'static str = "preservation token index exceeds platform size";
pub const MALFORMED_ESCAPE: &'static str = "malformed preservation marker escape";

// ---------------------------------------------------------------------------
// Tokens
// ---------------------------------------------------------------------------

pub open spec fn pow256(k: nat) -> nat
    decreases k,
{
    if k == 0 {
        1
    } else {
        256 * pow256((k - 1) as nat)
    }
}

/// Byte `k` (big-endian, of eight) of an index.
pub open spec fn index_byte(n: nat, k: int) -> nat {
    (n / pow256((7 - k) as nat)) % 256
}

pub open spec fn index_scalar(b: nat) -> char {
    (INDEX_SCALAR_START + b) as char
}

/// The token for an index: the start scalar, one scalar per index byte
/// (most significant first), the end scalar.
pub open spec fn token_of(n: nat) -> Seq<char> {
    seq![TOKEN_START] + Seq::new(8, |k: int| index_scalar(index_byte(n, k))) + seq![TOKEN_END]
}

/// The index byte a scalar stands for.
pub open spec fn scalar_byte(c: char) -> Option<nat> {
    let v = c as u32;
    if INDEX_SCALAR_START <= v && v - INDEX_SCALAR_START <= 255 {
        Some((v - INDEX_SCALAR_START) as nat)
    } else {
        None
    }
}

/// The value of the first `k` index slots of a token (or the first failure).
pub open spec fn slots_value(t: Seq<char>, k: nat) -> Result<nat, &'static str>
    decreases k,
{
    if k == 0 {
        Ok(0)
    } else {
        match slots_value(t, (k - 1) as nat) {
            Err(e) => Err(e),
            Ok(acc) => if k >= t.len() {
                Err(MALFORMED_TOKEN)
            } else {
                match scalar_byte(t[k as int]) {
                    None => Err(MALFORMED_TOKEN_INDEX),
                    Some(b) => Ok(acc * 256 + b),
                }
            },
        }
    }
}

/// The index a token stands for, or why it is malformed.
pub open spec fn token_index(t: Seq<char>) -> Result<nat, &'static str> {
    if t.len() == 0 || t[0] != TOKEN_START {
        Err(MALFORMED_TOKEN)
    } else {
        match slots_value(t, 8) {
            Err(e) => Err(e),
            Ok(v) => if t.len() != 10 || t[9] != TOKEN_END {
                Err(MALFORMED_TOKEN)
            } else if v > usize::MAX {
                Err(INDEX_EXCEEDS_PLATFORM)
            } else {
                Ok(v)
            },
        }
    }
}

/// `char::from_u32`: the scalar with this value, when it is one.
///
/// Claimed of std: `Some(v as char)` exactly for Unicode scalar values.
#[verifier::external_body]
pub(crate) fn char_from_u32(v: u32) -> (r: Option<char>)
    ensures
        vstd::utf8::is_scalar(v) ==> r == Some(v as char),
        !vstd::utf8::is_scalar(v) ==> r is None,
{
    char::from_u32(v)
}

proof fn lemma_index_scalar(b: nat)
    requires
        b < 256,
    ensures
        vstd::utf8::is_scalar((INDEX_SCALAR_START + b) as u32),
        index_scalar(b) as u32 == INDEX_SCALAR_START + b,
        scalar_byte(index_scalar(b)) == Some(b),
{
}

/// The token for an index.
pub fn encode_token(index: usize) -> (r: String)
    ensures
        r@ == token_of(index as nat),
        r@.len() == TOKEN_LENGTH,
{
    let n = index as u64;
    let mut out: Vec<char> = Vec::new();
    out.push(TOKEN_START);
    let mut pow: u64 = 0x0100_0000_0000_0000;
    let mut k: usize = 0;
    proof {
        reveal_with_fuel(pow256, 8);
    }
    while k < 8
        invariant
            k <= 8,
            n == index as u64,
            pow == pow256((7 - k) as nat) || k == 8,
            out@ == seq![TOKEN_START] + Seq::new(k as nat, |j: int| index_scalar(index_byte(index as nat, j))),
        decreases 8 - k,
    {
        proof {
            reveal_with_fuel(pow256, 8);
        }
        let b = (n / pow) % 256;
        assert(b == index_byte(index as nat, k as int));
        proof {
            lemma_index_scalar(b as nat);
        }
        let c = char_from_u32(INDEX_SCALAR_START + b as u32);
        let c = match c {
            Some(c) => c,
            None => TOKEN_END,
        };
        out.push(c);
        assert(out@ =~= seq![TOKEN_START] + Seq::new((k + 1) as nat, |j: int| index_scalar(index_byte(index as nat, j))));
        if k < 7 {
            pow = pow / 256;
        }
        k += 1;
    }
    out.push(TOKEN_END);
    assert(out@ =~= token_of(index as nat));
    string_of(&out)
}

/// The index a token stands for.
pub fn parse_token(token: &str) -> (r: Result<usize, PreservationError>)
    ensures
        match token_index(token@) {
            Ok(v) => r matches Ok(i) && i == v,
            Err(m) => r matches Err(e) && e.0@ == m@,
        },
{
    let t = chars_of(token);
    if t.len() == 0 || t[0] != TOKEN_START {
        return Err(PreservationError(MALFORMED_TOKEN));
    }
    let mut acc: u64 = 0;
    let mut k: usize = 1;
    while k <= 8
        invariant
            1 <= k <= 9,
            t@ == token@,
            t@.len() > 0 && t@[0] == TOKEN_START,
            slots_value(t@, (k - 1) as nat) == Ok::<nat, &'static str>(acc as nat),
            acc < pow256((k - 1) as nat),
        decreases 9 - k,
    {
        if k >= t.len() {
            proof {
                lemma_slots_err(t@, k as nat, MALFORMED_TOKEN);
            }
            return Err(PreservationError(MALFORMED_TOKEN));
        }
        let v = t[k] as u32;
        if !(INDEX_SCALAR_START <= v && v - INDEX_SCALAR_START <= 255) {
            proof {
                lemma_slots_err(t@, k as nat, MALFORMED_TOKEN_INDEX);
            }
            return Err(PreservationError(MALFORMED_TOKEN_INDEX));
        }
        let b = (v - INDEX_SCALAR_START) as u64;
        proof {
            assert(pow256(k as nat) == 256 * pow256((k - 1) as nat));
            assert(acc * 256 + b < pow256(k as nat)) by (nonlinear_arith)
                requires
                    acc < pow256((k - 1) as nat),
                    b < 256,
                    pow256(k as nat) == 256 * pow256((k - 1) as nat),
            ;
            reveal_with_fuel(pow256, 9);
        }
        acc = acc * 256 + b;
        k += 1;
    }
    if t.len() != 10 || t[9] != TOKEN_END {
        return Err(PreservationError(MALFORMED_TOKEN));
    }
    if acc > usize::MAX as u64 {
        return Err(PreservationError(INDEX_EXCEEDS_PLATFORM));
    }
    Ok(acc as usize)
}

proof fn lemma_slots_err(t: Seq<char>, k: nat, m: &'static str)
    requires
        k <= 8,
        slots_value(t, k) == Err::<nat, &'static str>(m),
    ensures
        slots_value(t, 8) == Err::<nat, &'static str>(m),
    decreases 8 - k,
{
    if k < 8 {
        lemma_slots_err(t, k + 1, m);
    }
}

/// The first `k` slots of the token for `n` hold `n`'s first `k` bytes.
proof fn lemma_slots_of_token(n: nat, k: nat)
    requires
        n < pow256(8),
        k <= 8,
    ensures
        slots_value(token_of(n), k) == Ok::<nat, &'static str>(n / pow256((8 - k) as nat)),
    decreases k,
{
    reveal_with_fuel(pow256, 9);
    if k == 0 {
        assert(n / pow256(8) == 0) by (nonlinear_arith)
            requires
                n < pow256(8),
        ;
    } else {
        lemma_slots_of_token(n, (k - 1) as nat);
        let p = pow256((8 - k) as nat);
        assert(p > 0);
        let x = n / p;
        assert(pow256((8 - (k - 1)) as nat) == p * 256);
        vstd::arithmetic::div_mod::lemma_div_denominator(n as int, p as int, 256);
        vstd::arithmetic::div_mod::lemma_fundamental_div_mod(x as int, 256);
        let b = index_byte(n, k - 1);
        assert(b == x % 256);
        lemma_index_scalar(b);
        assert(token_of(n)[k as int] == index_scalar(b));
        assert((n / (p * 256)) * 256 + x % 256 == x) by (nonlinear_arith)
            requires
                n / (p * 256) == x / 256,
                x == 256 * (x / 256) + x % 256,
        ;
    }
}

/// Parsing the token for an index gives the index back.
pub proof fn lemma_token_round_trip(index: usize)
    ensures
        token_index(token_of(index as nat)) == Ok::<nat, &'static str>(index as nat),
{
    reveal_with_fuel(pow256, 9);
    assert(pow256(8) == 0x1_0000_0000_0000_0000);
    lemma_slots_of_token(index as nat, 8);
    let t = token_of(index as nat);
    assert(t.len() == 10);
    assert(t[0] == TOKEN_START);
    assert(t[9] == TOKEN_END);
    assert(pow256(0) == 1);
    assert(index as nat / 1 == index as nat);
}

// ---------------------------------------------------------------------------
// Escaping authored markers
// ---------------------------------------------------------------------------

pub open spec fn is_marker(c: char) -> bool {
    c == ESCAPE_MARKER || c == TOKEN_START || c == TOKEN_END
}

pub open spec fn escape_code(c: char) -> char {
    if c == ESCAPE_MARKER {
        ESCAPED_ESCAPE
    } else if c == TOKEN_START {
        ESCAPED_START
    } else {
        ESCAPED_END
    }
}

pub open spec fn is_escape_code(c: char) -> bool {
    c == ESCAPED_ESCAPE || c == ESCAPED_START || c == ESCAPED_END
}

pub open spec fn unescape_code(c: char) -> char {
    if c == ESCAPED_ESCAPE {
        ESCAPE_MARKER
    } else if c == ESCAPED_START {
        TOKEN_START
    } else {
        TOKEN_END
    }
}

/// Authored text with each marker scalar replaced by the escape marker and
/// its code.
pub open spec fn escaped(s: Seq<char>) -> Seq<char>
    decreases s.len(),
{
    if s.len() == 0 {
        Seq::empty()
    } else if is_marker(s[0]) {
        seq![ESCAPE_MARKER, escape_code(s[0])] + escaped(s.skip(1))
    } else {
        seq![s[0]] + escaped(s.skip(1))
    }
}

/// Escape scalars of authored text that could be read as token syntax.
pub fn escape_authored_markers(text: &str) -> (r: String)
    ensures
        r@ == escaped(text@),
{
    let v = chars_of(text);
    let mut out: Vec<char> = Vec::new();
    let mut i: usize = 0;
    assert(v@.skip(0) =~= v@);
    while i < v.len()
        invariant
            i <= v.len(),
            out@ + escaped(v@.skip(i as int)) == escaped(v@),
        decreases v.len() - i,
    {
        let ghost before = out@;
        let c = v[i];
        assert(v@.skip(i as int)[0] == c);
        assert(v@.skip(i as int).skip(1) =~= v@.skip(i + 1));
        if c == ESCAPE_MARKER {
            out.push(ESCAPE_MARKER);
            out.push(ESCAPED_ESCAPE);
        } else if c == TOKEN_START {
            out.push(ESCAPE_MARKER);
            out.push(ESCAPED_START);
        } else if c == TOKEN_END {
            out.push(ESCAPE_MARKER);
            out.push(ESCAPED_END);
        } else {
            out.push(c);
        }
        assert(out@ + escaped(v@.skip(i + 1)) =~= before + escaped(v@.skip(i as int)));
        i += 1;
    }
    assert(escaped(v@.skip(v.len() as int)) =~= Seq::<char>::empty());
    assert(out@ =~= out@ + Seq::<char>::empty());
    string_of(&out)
}

// ---------------------------------------------------------------------------
// Reading a rendered stream
// ---------------------------------------------------------------------------

/// The gaps and token indexes of a rendered text: escapes are undone in the
/// gaps, each token ends a gap. Fails on a broken escape, a malformed token
/// or a stray token end.
pub open spec fn stream_parts(s: Seq<char>) -> Result<(Seq<Seq<char>>, Seq<nat>), &'static str>
    decreases s.len(),
{
    if s.len() == 0 {
        Ok((seq![Seq::empty()], Seq::empty()))
    } else if s[0] == ESCAPE_MARKER {
        if s.len() < 2 || !is_escape_code(s[1]) {
            Err(MALFORMED_ESCAPE)
        } else {
            match stream_parts(s.skip(2)) {
                Err(e) => Err(e),
                Ok(p) => Ok((p.0.update(0, seq![unescape_code(s[1])] + p.0[0]), p.1)),
            }
        }
    } else if s[0] == TOKEN_START {
        if s.len() < 10 {
            Err(MALFORMED_TOKEN)
        } else {
            match token_index(s.take(10)) {
                Err(e) => Err(e),
                Ok(i) => match stream_parts(s.skip(10)) {
                    Err(e) => Err(e),
                    Ok(p) => Ok((seq![Seq::empty()] + p.0, seq![i] + p.1)),
                },
            }
        }
    } else if s[0] == TOKEN_END {
        Err(MALFORMED_TOKEN)
    } else {
        match stream_parts(s.skip(1)) {
            Err(e) => Err(e),
            Ok(p) => Ok((p.0.update(0, seq![s[0]] + p.0[0]), p.1)),
        }
    }
}

proof fn lemma_stream_gaps_nonempty(s: Seq<char>)
    ensures
        stream_parts(s) matches Ok(p) ==> p.0.len() == p.1.len() + 1,
    decreases s.len(),
{
    if s.len() > 0 {
        if s[0] == ESCAPE_MARKER && s.len() >= 2 {
            lemma_stream_gaps_nonempty(s.skip(2));
        } else if s[0] == TOKEN_START && s.len() >= 10 {
            lemma_stream_gaps_nonempty(s.skip(10));
        } else {
            lemma_stream_gaps_nonempty(s.skip(1));
        }
    }
}

/// What is read so far (finished gaps, the open gap, indexes) combined with
/// the reading of the rest.
pub open spec fn stream_combine(
    done: Seq<Seq<char>>,
    cur: Seq<char>,
    idx: Seq<nat>,
    rest: Result<(Seq<Seq<char>>, Seq<nat>), &'static str>,
) -> Result<(Seq<Seq<char>>, Seq<nat>), &'static str> {
    match rest {
        Err(e) => Err(e),
        Ok(p) => Ok((done + seq![cur + p.0[0]] + p.0.drop_first(), idx + p.1)),
    }
}

pub open spec fn usize_nat_views(v: Seq<usize>) -> Seq<nat> {
    v.map_values(|x: usize| x as nat)
}

/// Split a rendered text into the gaps between tokens (escapes undone) and
/// the indexes of the tokens.
pub fn parse_rendered_stream(rendered: &str) -> (r: Result<(Vec<String>, Vec<usize>), PreservationError>)
    ensures
        match stream_parts(rendered@) {
            Ok(p) => r matches Ok(x) && crate::text::views(x.0@) == p.0 && usize_nat_views(x.1@) == p.1,
            Err(m) => r matches Err(e) && e.0@ == m@,
        },
{
    let v = chars_of(rendered);
    let n = v.len();
    let mut done: Vec<String> = Vec::new();
    let mut cur: Vec<char> = Vec::new();
    let mut idx: Vec<usize> = Vec::new();
    let mut i: usize = 0;
    assert(v@.skip(0) =~= v@);
    assert(crate::text::views(done@) =~= Seq::<Seq<char>>::empty());
    assert(usize_nat_views(idx@) =~= Seq::<nat>::empty());
    proof {
        lemma_stream_gaps_nonempty(v@);
    }
    assert(stream_combine(Seq::empty(), Seq::empty(), Seq::empty(), stream_parts(v@)) =~= stream_parts(v@)) by {
        if stream_parts(v@) is Ok {
            let p = stream_parts(v@)->Ok_0;
            assert(Seq::<Seq<char>>::empty() + seq![Seq::<char>::empty() + p.0[0]] + p.0.drop_first() =~= p.0);
            assert(Seq::<nat>::empty() + p.1 =~= p.1);
        }
    }
    while i < n
        invariant
            i <= n == v.len(),
            v@ == rendered@,
            stream_combine(crate::text::views(done@), cur@, usize_nat_views(idx@), stream_parts(v@.skip(i as int)))
                == stream_parts(v@),
        decreases n - i,
    {
        let ghost s = v@.skip(i as int);
        let ghost dv = crate::text::views(done@);
        let ghost cv = cur@;
        let ghost iv = usize_nat_views(idx@);
        assert(s[0] == v@[i as int]);
        let c = v[i];
        if c == ESCAPE_MARKER {
            if i + 1 >= n || !(v[i + 1] == ESCAPED_ESCAPE || v[i + 1] == ESCAPED_START || v[i + 1] == ESCAPED_END) {
                if i + 1 < n {
                    assert(s[1] == v@[i + 1]);
                }
                return Err(PreservationError(MALFORMED_ESCAPE));
            }
            assert(s[1] == v@[i + 1]);
            assert(s.skip(2) =~= v@.skip(i + 2));
            let d = v[i + 1];
            cur.push(if d == ESCAPED_ESCAPE { ESCAPE_MARKER } else if d == ESCAPED_START { TOKEN_START } else { TOKEN_END });
            proof {
                lemma_stream_gaps_nonempty(s.skip(2));
                if stream_parts(s.skip(2)) is Ok {
                    let p = stream_parts(s.skip(2))->Ok_0;
                    assert(p.0.update(0, seq![unescape_code(d)] + p.0[0]).drop_first() =~= p.0.drop_first());
                    assert(cv + (seq![unescape_code(d)] + p.0[0]) =~= cur@ + p.0[0]);
                }
            }
            i += 2;
        } else if c == TOKEN_START {
            if n - i < 10 {
                return Err(PreservationError(MALFORMED_TOKEN));
            }
            let tok = crate::text::slice_of(&v, i, i + 10);
            assert(tok@ =~= s.take(10));
            assert(s.skip(10) =~= v@.skip(i + 10));
            let ts = string_of(&tok);
            let index = match parse_token(ts.as_str()) {
                Ok(x) => x,
                Err(e) => {
                    return Err(e);
                },
            };
            let g = string_of(&cur);
            done.push(g);
            cur = Vec::new();
            idx.push(index);
            proof {
                lemma_stream_gaps_nonempty(s.skip(10));
                assert(crate::text::views(done@) =~= dv.push(cv));
                assert(usize_nat_views(idx@) =~= iv.push(index as nat));
                if stream_parts(s.skip(10)) is Ok {
                    let p = stream_parts(s.skip(10))->Ok_0;
                    assert((seq![Seq::<char>::empty()] + p.0).drop_first() =~= p.0);
                    assert(dv + seq![cv + Seq::<char>::empty()] =~= dv.push(cv) + Seq::<Seq<char>>::empty());
                    assert(dv + seq![cv + (seq![Seq::<char>::empty()] + p.0)[0]] + (seq![Seq::<char>::empty()] + p.0).drop_first()
                        =~= dv.push(cv) + seq![Seq::<char>::empty() + p.0[0]] + p.0.drop_first());
                    assert(iv + (seq![index as nat] + p.1) =~= iv.push(index as nat) + p.1);
                }
            }
            i += 10;
        } else if c == TOKEN_END {
            return Err(PreservationError(MALFORMED_TOKEN));
        } else {
            assert(s.skip(1) =~= v@.skip(i + 1));
            cur.push(c);
            proof {
                lemma_stream_gaps_nonempty(s.skip(1));
                if stream_parts(s.skip(1)) is Ok {
                    let p = stream_parts(s.skip(1))->Ok_0;
                    assert(p.0.update(0, seq![c] + p.0[0]).drop_first() =~= p.0.drop_first());
                    assert(cv + (seq![c] + p.0[0]) =~= cur@ + p.0[0]);
                }
            }
            i += 1;
        }
    }
    assert(v@.skip(n as int) =~= Seq::<char>::empty());
    let g = string_of(&cur);
    let ghost dv = crate::text::views(done@);
    done.push(g);
    proof {
        assert(crate::text::views(done@) =~= dv.push(cur@));
        let p0: Seq<Seq<char>> = seq![Seq::<char>::empty()];
        assert(p0.drop_first() =~= Seq::<Seq<char>>::empty());
        assert(cur@ + p0[0] =~= cur@);
        assert(dv + seq![cur@ + p0[0]] + p0.drop_first() =~= dv.push(cur@));
        assert(usize_nat_views(idx@) + Seq::<nat>::empty() =~= usize_nat_views(idx@));
    }
    Ok((done, idx))
}

/// Number of LFs in a text: the 1-based number of the line that the last LF
/// closes.
pub fn line_number_of_last_line(output: &str) -> (n: usize)
    ensures
        n == output@.filter(|c: char| c == '\n').len(),
{
    let v = chars_of(output);
    let mut n: usize = 0;
    let mut i: usize = 0;
    while i < v.len()
        invariant
            i <= v.len(),
            n == v@.take(i as int).filter(|c: char| c == '\n').len(),
            n <= i,
        decreases v.len() - i,
    {
        proof {
            assert(v@.take(i + 1) =~= v@.take(i as int).push(v@[i as int]));
            v@.take(i as int).lemma_filter_push(v@[i as int], |c: char| c == '\n');
        }
        if v[i] == '\n' {
            n += 1;
        }
        i += 1;
    }
    assert(v@.take(v.len() as int) =~= v@);
    n
}

} // verus!

verus! {

/// Reading escaped authored text back gives the text: it joins the first gap
/// of whatever follows.
pub proof fn lemma_stream_escaped(g: Seq<char>, rest: Seq<char>)
    ensures
        stream_parts(escaped(g) + rest) == match stream_parts(rest) {
            Err(e) => Err(e),
            Ok(p) => Ok((p.0.update(0, g + p.0[0]), p.1)),
        },
    decreases g.len(),
{
    lemma_stream_gaps_nonempty(rest);
    if g.len() == 0 {
        assert(escaped(g) + rest =~= rest);
        if stream_parts(rest) is Ok {
            let p = stream_parts(rest)->Ok_0;
            assert(p.0.update(0, g + p.0[0]) =~= p.0);
        }
    } else {
        let x = escaped(g.skip(1)) + rest;
        lemma_stream_escaped(g.skip(1), rest);
        lemma_stream_gaps_nonempty(x);
        let c = g[0];
        if is_marker(c) {
            let s = escaped(g) + rest;
            assert(s =~= seq![ESCAPE_MARKER, escape_code(c)] + x);
            assert(s[0] == ESCAPE_MARKER);
            assert(s[1] == escape_code(c));
            assert(s.skip(2) =~= x);
            assert(unescape_code(escape_code(c)) == c);
        } else {
            let s = escaped(g) + rest;
            assert(s =~= seq![c] + x);
            assert(s[0] == c);
            assert(s.skip(1) =~= x);
        }
        if stream_parts(rest) is Ok {
            let p = stream_parts(rest)->Ok_0;
            let q = p.0.update(0, g.skip(1) + p.0[0]);
            assert(q.update(0, seq![c] + q[0]) =~= p.0.update(0, g + p.0[0])) by {
                assert(seq![c] + (g.skip(1) + p.0[0]) =~= g + p.0[0]);
            }
        }
    }
}

/// Reading a token starts a new gap and records the token's index.
pub proof fn lemma_stream_token(index: usize, rest: Seq<char>)
    ensures
        stream_parts(token_of(index as nat) + rest) == match stream_parts(rest) {
            Err(e) => Err(e),
            Ok(p) => Ok((seq![Seq::<char>::empty()] + p.0, seq![index as nat] + p.1)),
        },
{
    lemma_token_round_trip(index);
    let s = token_of(index as nat) + rest;
    assert(s.take(10) =~= token_of(index as nat));
    assert(s.skip(10) =~= rest);
    assert(s[0] == TOKEN_START);
}

} // verus!

verus! {

/// A successful reading has one more gap than tokens.
pub proof fn lemma_stream_gaps_nonempty_pub(s: Seq<char>)
    ensures
        stream_parts(s) matches Ok(p) ==> p.0.len() == p.1.len() + 1,
{
    lemma_stream_gaps_nonempty(s);
}

} // verus!
