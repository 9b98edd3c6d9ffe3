//! The textual state-file format: one `key = "value"` line per field,
//! the environment line present only when one is selected.  Encoding
//! and parsing are exact inverses, so a persisted record reads back as
//! it was written.

use vstd::prelude::*;
use crate::bytestr::append_bytes;
use crate::bytestr::copy_bytes;
use crate::config::Config;
use crate::paths::environment_field;
use crate::paths::environment_field_bytes;
use crate::paths::NEWLINE;

verus! {

/// The double-quote byte.
pub const QUOTE: u8 = 34;

/// The backslash byte.
pub const BACKSLASH: u8 = 92;

/// The carriage-return byte.
pub const CARRIAGE_RETURN: u8 = 13;

/// The key "region".
pub open spec fn region_key() -> Seq<u8> {
    seq![114u8, 101u8, 103u8, 105u8, 111u8, 110u8]
}

/// The key "module".
pub open spec fn module_key() -> Seq<u8> {
    seq![109u8, 111u8, 100u8, 117u8, 108u8, 101u8]
}

/// The key "infra_dir".
pub open spec fn infra_dir_key() -> Seq<u8> {
    seq![105u8, 110u8, 102u8, 114u8, 97u8, 95u8, 100u8, 105u8, 114u8]
}

/// The bytes between a key and its value, " = " and the opening quote.
pub open spec fn assign_open() -> Seq<u8> {
    seq![32u8, 61u8, 32u8, QUOTE]
}

/// The bytes that close a value: the quote and the line's newline.
pub open spec fn close_line() -> Seq<u8> {
    seq![QUOTE, NEWLINE]
}

/// A value that the format can carry verbatim: no quote, no backslash
/// and no line break, so it needs no escaping and stays one line.
pub open spec fn plain_value(s: Seq<u8>) -> bool {
    forall|i: int|
        0 <= i < s.len() ==> s[i] != QUOTE && s[i] != BACKSLASH && s[i] != NEWLINE && s[i]
            != CARRIAGE_RETURN
}

/// The environment field's view, when one is selected.
pub open spec fn spec_env(c: Config) -> Option<Seq<u8>> {
    match c.environment {
        Some(e) => Some(e@),
        None => None,
    }
}

/// A record whose every field the format can carry verbatim.
pub open spec fn plain_config(c: Config) -> bool {
    &&& (c.environment matches Some(e) ==> plain_value(e@))
    &&& plain_value(c.region@)
    &&& plain_value(c.module@)
    &&& plain_value(c.infra_dir@)
}

/// One line of the state file: `key = "value"` and a newline.
pub open spec fn spec_encode_field(key: Seq<u8>, value: Seq<u8>) -> Seq<u8> {
    key + assign_open() + value + close_line()
}

/// The whole state file: the environment line when one is selected,
/// then the region, module and infrastructure-root lines.
pub open spec fn spec_encode(
    environment: Option<Seq<u8>>,
    region: Seq<u8>,
    module: Seq<u8>,
    infra_dir: Seq<u8>,
) -> Seq<u8> {
    (match environment {
        Some(e) => spec_encode_field(environment_field(), e),
        None => Seq::empty(),
    }) + spec_encode_field(region_key(), region) + spec_encode_field(module_key(), module)
        + spec_encode_field(infra_dir_key(), infra_dir)
}

/// The state file that holds a record.
pub open spec fn spec_encode_config(c: Config) -> Seq<u8> {
    spec_encode(spec_env(c), c.region@, c.module@, c.infra_dir@)
}

/// The byte string "region".
pub fn region_key_bytes() -> (r: Vec<u8>)
    ensures
        r@ == region_key(),
{
    let r: Vec<u8> = vec![114, 101, 103, 105, 111, 110];
    assert(r@ =~= region_key());
    r
}

/// The byte string "module".
pub fn module_key_bytes() -> (r: Vec<u8>)
    ensures
        r@ == module_key(),
{
    let r: Vec<u8> = vec![109, 111, 100, 117, 108, 101];
    assert(r@ =~= module_key());
    r
}

/// The byte string "infra_dir".
pub fn infra_dir_key_bytes() -> (r: Vec<u8>)
    ensures
        r@ == infra_dir_key(),
{
    let r: Vec<u8> = vec![105, 110, 102, 114, 97, 95, 100, 105, 114];
    assert(r@ =~= infra_dir_key());
    r
}

/// True when the format can carry the value verbatim.
pub fn is_plain_value(v: &Vec<u8>) -> (r: bool)
    ensures
        r == plain_value(v@),
{
    let n = v.len();
    let mut i: usize = 0;
    while i < n
        invariant
            n == v.len(),
            0 <= i <= n,
            forall|k: int|
                0 <= k < i ==> v@[k] != QUOTE && v@[k] != BACKSLASH && v@[k] != NEWLINE && v@[k]
                    != CARRIAGE_RETURN,
        decreases n - i,
    {
        let c = v[i];
        if c == QUOTE || c == BACKSLASH || c == NEWLINE || c == CARRIAGE_RETURN {
            return false;
        }
        i = i + 1;
    }
    true
}

/// True when the format can carry every field of the record verbatim.
pub fn config_is_plain(c: &Config) -> (r: bool)
    ensures
        r == plain_config(*c),
{
    let env_ok = match &c.environment {
        Some(e) => is_plain_value(e),
        None => true,
    };
    env_ok && is_plain_value(&c.region) && is_plain_value(&c.module) && is_plain_value(
        &c.infra_dir,
    )
}

/// Appends one `key = "value"` line.
fn encode_field(out: &mut Vec<u8>, key: &Vec<u8>, value: &Vec<u8>)
    ensures
        final(out)@ == old(out)@ + spec_encode_field(key@, value@),
{
    append_bytes(out, key);
    out.push(32);
    out.push(61);
    out.push(32);
    out.push(QUOTE);
    append_bytes(out, value);
    out.push(QUOTE);
    out.push(NEWLINE);
    assert(out@ =~= old(out)@ + spec_encode_field(key@, value@));
}

/// Serializes a record into the state-file bytes.
pub fn encode_state(c: &Config) -> (r: Vec<u8>)
    ensures
        r@ == spec_encode_config(*c),
{
    let mut out: Vec<u8> = Vec::new();
    match &c.environment {
        Some(e) => {
            let key = environment_field_bytes();
            encode_field(&mut out, &key, e);
        },
        None => {
            assert(out@ =~= Seq::<u8>::empty());
        },
    }
    let rk = region_key_bytes();
    encode_field(&mut out, &rk, &c.region);
    let mk = module_key_bytes();
    encode_field(&mut out, &mk, &c.module);
    let ik = infra_dir_key_bytes();
    encode_field(&mut out, &ik, &c.infra_dir);
    assert(out@ =~= spec_encode_config(*c));
    out
}

/// The position of the first quote in a byte string, if any.
pub open spec fn first_quote(s: Seq<u8>) -> Option<int>
    decreases s.len(),
{
    if s.len() == 0 {
        None
    } else if s[0] == QUOTE {
        Some(0)
    } else {
        match first_quote(s.skip(1)) {
            Some(i) => Some(i + 1),
            None => None,
        }
    }
}

/// A quote at `t`, with none before it, is the first one.
proof fn lemma_first_quote_at(s: Seq<u8>, t: int)
    requires
        0 <= t < s.len(),
        s[t] == QUOTE,
        forall|k: int| 0 <= k < t ==> s[k] != QUOTE,
    ensures
        first_quote(s) == Some(t),
    decreases t,
{
    if t > 0 {
        assert forall|k: int| 0 <= k < t - 1 implies s.skip(1)[k] != QUOTE by {
            assert(s[k + 1] != QUOTE);
        }
        assert(s.skip(1)[t - 1] == s[t]);
        lemma_first_quote_at(s.skip(1), t - 1);
    }
}

/// Without a quote anywhere there is no first one.
proof fn lemma_first_quote_none(s: Seq<u8>)
    requires
        forall|k: int| 0 <= k < s.len() ==> s[k] != QUOTE,
    ensures
        first_quote(s) is None,
    decreases s.len(),
{
    if s.len() > 0 {
        assert forall|k: int| 0 <= k < s.skip(1).len() implies s.skip(1)[k] != QUOTE by {
            assert(s[k + 1] != QUOTE);
        }
        lemma_first_quote_none(s.skip(1));
    }
}

/// Reads one `key = "value"` line at the head of `s`: the value and
/// what follows the line, or nothing when `s` does not start this way.
pub open spec fn spec_parse_field(key: Seq<u8>, s: Seq<u8>) -> Option<(Seq<u8>, Seq<u8>)> {
    let prefix = key + assign_open();
    if s.len() < prefix.len() || s.take(prefix.len() as int) != prefix {
        None
    } else {
        let body = s.skip(prefix.len() as int);
        match first_quote(body) {
            Some(q) => if q + 1 < body.len() && body[q + 1] == NEWLINE {
                Some((body.take(q), body.skip(q + 2)))
            } else {
                None
            },
            None => None,
        }
    }
}

/// Reads a whole state file: an optional environment line, then the
/// region, module and infrastructure-root lines, and nothing after
/// them.
pub open spec fn spec_parse(s: Seq<u8>) -> Option<(Option<Seq<u8>>, Seq<u8>, Seq<u8>, Seq<u8>)> {
    let head = spec_parse_field(environment_field(), s);
    let environment = match head {
        Some(p) => Some(p.0),
        None => None,
    };
    let rest1 = match head {
        Some(p) => p.1,
        None => s,
    };
    match spec_parse_field(region_key(), rest1) {
        Some((region, rest2)) => match spec_parse_field(module_key(), rest2) {
            Some((module, rest3)) => match spec_parse_field(infra_dir_key(), rest3) {
                Some((infra_dir, rest4)) => if rest4.len() == 0 {
                    Some((environment, region, module, infra_dir))
                } else {
                    None
                },
                None => None,
            },
            None => None,
        },
        None => None,
    }
}

/// Parsing reads back exactly the line that encoding wrote, leaving
/// what follows untouched, for any value without a quote or line
/// break.
proof fn lemma_parse_field_of_encoding(key: Seq<u8>, value: Seq<u8>, rest: Seq<u8>)
    requires
        plain_value(value),
    ensures
        spec_parse_field(key, spec_encode_field(key, value) + rest) == Some((value, rest)),
{
    let prefix = key + assign_open();
    let s = spec_encode_field(key, value) + rest;
    assert(s.len() >= prefix.len());
    assert(s.take(prefix.len() as int) =~= prefix);
    let body = s.skip(prefix.len() as int);
    assert(body =~= value + close_line() + rest);
    let q = value.len() as int;
    assert(body[q] == QUOTE);
    assert forall|k: int| 0 <= k < q implies body[k] != QUOTE by {
        assert(body[k] == value[k]);
    }
    lemma_first_quote_at(body, q);
    assert(q + 1 < body.len());
    assert(body[q + 1] == NEWLINE);
    assert(body.take(q) =~= value);
    assert(body.skip(q + 2) =~= rest);
}

/// A persisted record reads back exactly as it was written: parsing
/// the encoding of any record whose fields carry no quote, backslash
/// or line break yields that record again.  Loading the state file
/// right after it was created, and loading it again unmodified, thus
/// see the same record.
pub proof fn lemma_state_round_trip(
    environment: Option<Seq<u8>>,
    region: Seq<u8>,
    module: Seq<u8>,
    infra_dir: Seq<u8>,
)
    requires
        environment matches Some(e) ==> plain_value(e),
        plain_value(region),
        plain_value(module),
        plain_value(infra_dir),
    ensures
        spec_parse(spec_encode(environment, region, module, infra_dir)) == Some(
            (environment, region, module, infra_dir),
        ),
{
    let f_region = spec_encode_field(region_key(), region);
    let f_module = spec_encode_field(module_key(), module);
    let f_infra = spec_encode_field(infra_dir_key(), infra_dir);
    let tail = f_region + f_module + f_infra;
    let enc = spec_encode(environment, region, module, infra_dir);
    match environment {
        Some(e) => {
            assert(enc =~= spec_encode_field(environment_field(), e) + tail);
            lemma_parse_field_of_encoding(environment_field(), e, tail);
        },
        None => {
            assert(enc =~= tail);
            // The file then opens with the region line, whose first
            // byte differs from the environment key's: the optional
            // line is correctly seen as absent.
            let prefix = environment_field() + assign_open();
            if enc.len() >= prefix.len() {
                assert(enc.take(prefix.len() as int)[0] == enc[0]);
                assert(enc[0] == f_region[0]);
                assert(enc.take(prefix.len() as int) != prefix);
            }
            assert(spec_parse_field(environment_field(), enc) is None);
        },
    }
    assert(tail =~= f_region + (f_module + f_infra));
    lemma_parse_field_of_encoding(region_key(), region, f_module + f_infra);
    assert(f_module + f_infra =~= f_module + (f_infra + Seq::<u8>::empty()));
    lemma_parse_field_of_encoding(module_key(), module, f_infra + Seq::<u8>::empty());
    assert(f_infra + Seq::<u8>::empty() =~= spec_encode_field(infra_dir_key(), infra_dir)
        + Seq::<u8>::empty());
    lemma_parse_field_of_encoding(infra_dir_key(), infra_dir, Seq::<u8>::empty());
}

/// The law above, stated of a record: a plain record survives the
/// trip through the state file unchanged.
pub proof fn lemma_config_round_trip(c: Config)
    requires
        plain_config(c),
    ensures
        spec_parse(spec_encode_config(c)) == Some((spec_env(c), c.region@, c.module@, c.infra_dir@)),
{
    lemma_state_round_trip(spec_env(c), c.region@, c.module@, c.infra_dir@);
}

/// True when `prefix` stands in `bytes` at position `pos`.
fn has_prefix_at(bytes: &Vec<u8>, pos: usize, prefix: &Vec<u8>) -> (r: bool)
    requires
        pos <= bytes@.len(),
    ensures
        r == (pos + prefix@.len() <= bytes@.len() && bytes@.subrange(
            pos as int,
            pos + prefix@.len(),
        ) == prefix@),
{
    let m = prefix.len();
    let n = bytes.len();
    if n - pos < m {
        return false;
    }
    let mut i: usize = 0;
    while i < m
        invariant
            m == prefix.len(),
            n == bytes@.len(),
            pos + m <= n,
            0 <= i <= m,
            forall|k: int| 0 <= k < i ==> bytes@[pos + k] == prefix@[k],
        decreases m - i,
    {
        if bytes[pos + i] != prefix[i] {
            proof {
                assert(bytes@.subrange(pos as int, pos + m)[i as int] != prefix@[i as int]);
            }
            return false;
        }
        i = i + 1;
    }
    assert(bytes@.subrange(pos as int, pos + m as int) =~= prefix@);
    true
}

/// The position of the first quote at or after `from`.
fn find_quote(bytes: &Vec<u8>, from: usize) -> (r: Option<usize>)
    requires
        from <= bytes@.len(),
    ensures
        match r {
            Some(q) => from <= q < bytes@.len() && bytes@[q as int] == QUOTE && (forall|k: int|
                from <= k < q ==> bytes@[k] != QUOTE),
            None => forall|k: int| from <= k < bytes@.len() ==> bytes@[k] != QUOTE,
        },
{
    let n = bytes.len();
    let mut q = from;
    while q < n
        invariant
            n == bytes@.len(),
            from <= q <= n,
            forall|k: int| from <= k < q ==> bytes@[k] != QUOTE,
        decreases n - q,
    {
        if bytes[q] == QUOTE {
            return Some(q);
        }
        q = q + 1;
    }
    None
}

/// A copy of `bytes[from .. to]`.
fn copy_range(bytes: &Vec<u8>, from: usize, to: usize) -> (r: Vec<u8>)
    requires
        from <= to <= bytes@.len(),
    ensures
        r@ == bytes@.subrange(from as int, to as int),
{
    let mut r: Vec<u8> = Vec::new();
    let mut i = from;
    while i < to
        invariant
            from <= i <= to <= bytes@.len(),
            r@ == bytes@.subrange(from as int, i as int),
        decreases to - i,
    {
        r.push(bytes[i]);
        assert(r@ =~= bytes@.subrange(from as int, i + 1));
        i = i + 1;
    }
    r
}

/// Reads one `key = "value"` line at position `pos`; on success the
/// copied value and the position just past the line.
fn parse_field(bytes: &Vec<u8>, pos: usize, key: &Vec<u8>) -> (r: Option<(Vec<u8>, usize)>)
    requires
        pos <= bytes@.len(),
    ensures
        match r {
            Some(p) => pos <= p.1 <= bytes@.len() && spec_parse_field(key@, bytes@.skip(pos as int))
                == Some((p.0@, bytes@.skip(p.1 as int))),
            None => spec_parse_field(key@, bytes@.skip(pos as int)) is None,
        },
{
    let ghost s = bytes@.skip(pos as int);
    let mut prefix = copy_bytes(key);
    prefix.push(32);
    prefix.push(61);
    prefix.push(32);
    prefix.push(QUOTE);
    proof {
        assert(prefix@ =~= key@ + assign_open());
    }
    if !has_prefix_at(bytes, pos, &prefix) {
        proof {
            if s.len() >= prefix@.len() {
                assert(s.take(prefix@.len() as int) =~= bytes@.subrange(
                    pos as int,
                    pos + prefix@.len(),
                ));
            }
        }
        return None;
    }
    proof {
        assert(s.take(prefix@.len() as int) =~= bytes@.subrange(pos as int, pos + prefix@.len()));
    }
    let n = bytes.len();
    assert(pos + prefix@.len() <= n);
    let body_start = pos + prefix.len();
    let ghost body = s.skip(prefix@.len() as int);
    proof {
        assert(body =~= bytes@.skip(body_start as int));
    }
    match find_quote(bytes, body_start) {
        None => {
            proof {
                assert forall|k: int| 0 <= k < body.len() implies body[k] != QUOTE by {
                    assert(body[k] == bytes@[body_start + k]);
                }
                lemma_first_quote_none(body);
            }
            None
        },
        Some(q) => {
            proof {
                assert forall|k: int| 0 <= k < q - body_start implies body[k] != QUOTE by {
                    assert(body[k] == bytes@[body_start + k]);
                }
                assert(body[q - body_start] == QUOTE);
                lemma_first_quote_at(body, q - body_start);
            }
            let ghost bq = q - body_start;
            assert(q < n);
            if q + 1 < n && bytes[q + 1] == NEWLINE {
                let value = copy_range(bytes, body_start, q);
                proof {
                    assert(bq + 1 < body.len());
                    assert(body[bq + 1] == NEWLINE);
                    assert(body.take(bq) =~= bytes@.subrange(body_start as int, q as int));
                    assert(body.skip(bq + 2) =~= bytes@.skip(q + 2));
                }
                Some((value, q + 2))
            } else {
                proof {
                    if bq + 1 < body.len() {
                        assert(body[bq + 1] == bytes@[q + 1]);
                    }
                }
                None
            }
        },
    }
}

/// Reads a record back from the state-file bytes; nothing when the
/// bytes are not a well-formed state file.
pub fn parse_state(bytes: &Vec<u8>) -> (r: Option<Config>)
    ensures
        match r {
            Some(c) => spec_parse(bytes@) == Some(
                (spec_env(c), c.region@, c.module@, c.infra_dir@),
            ),
            None => spec_parse(bytes@) is None,
        },
{
    proof {
        assert(bytes@.skip(0) =~= bytes@);
    }
    let env_key = environment_field_bytes();
    let (environment, pos1): (Option<Vec<u8>>, usize) = match parse_field(bytes, 0, &env_key) {
        Some((e, p)) => (Some(e), p),
        None => (None, 0),
    };
    let region_key_v = region_key_bytes();
    let (region, pos2) = match parse_field(bytes, pos1, &region_key_v) {
        Some(p) => p,
        None => {
            return None;
        },
    };
    let module_key_v = module_key_bytes();
    let (module, pos3) = match parse_field(bytes, pos2, &module_key_v) {
        Some(p) => p,
        None => {
            return None;
        },
    };
    let infra_key_v = infra_dir_key_bytes();
    let (infra_dir, pos4) = match parse_field(bytes, pos3, &infra_key_v) {
        Some(p) => p,
        None => {
            return None;
        },
    };
    if pos4 != bytes.len() {
        return None;
    }
    Some(Config { environment, region, module, infra_dir })
}

} // verus!
