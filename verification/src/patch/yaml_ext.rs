//! Reading typed values out of YAML nodes.
use vstd::prelude::*;
use crate::patch::yaml::{Yaml, YamlV, YamlHash, yv, yv_seq, yv_pairs, lookup, first_key, lemma_yv_seq, lemma_yv_pairs, group_yaml_views};
use crate::text::{chars_of, copy_str, replace_str, replace_all, str_eq};

verus! {

/// A copy of a node.
#[verifier::loop_isolation(false)]
pub fn yaml_clone(y: &Yaml) -> (r: Yaml)
    ensures
        yv(r) == yv(*y),
    decreases y,
{
    match y {
        Yaml::Real(s) => Yaml::Real(s.clone()),
        Yaml::Integer(i) => Yaml::Integer(*i),
        Yaml::String(s) => Yaml::String(s.clone()),
        Yaml::Boolean(b) => Yaml::Boolean(*b),
        Yaml::Array(a) => {
            let mut out: Vec<Yaml> = Vec::new();
            let mut i: usize = 0;
            proof {
                lemma_yv_seq(a@);
            }
            while i < a.len()
                invariant
                    i <= a@.len(),
                    y == Yaml::Array(*a),
                    yv_seq(out@) == yv_seq(a@).take(i as int),
                decreases a.len() - i,
            {
                assert(decreases_to!(a => a@));
                assert(decreases_to!(*y => a@[i as int]));
                let c = yaml_clone(&a[i]);
                let ghost before = out@;
                out.push(c);
                proof {
                    lemma_yv_seq(a@);
                    assert(out@.drop_last() =~= before);
                }
                i = i + 1;
                assert(yv_seq(out@) =~= yv_seq(a@).take(i as int));
            }
            proof {
                lemma_yv_seq(a@);
            }
            assert(yv_seq(a@).take(i as int) =~= yv_seq(a@));
            Yaml::Array(out)
        },
        Yaml::Hash(h) => Yaml::Hash(hash_clone_inner(h, y)),
        Yaml::Alias(n) => Yaml::Alias(*n),
        Yaml::Null => Yaml::Null,
        Yaml::BadValue => Yaml::BadValue,
    }
}

#[verifier::loop_isolation(false)]
fn hash_clone_inner(h: &YamlHash, y: &Yaml) -> (r: YamlHash)
    requires
        *y == Yaml::Hash(*h),
    ensures
        r.view_pairs() == h.view_pairs(),
    decreases y, 0nat,
{
    let mut out: Vec<(Yaml, Yaml)> = Vec::new();
    let mut i: usize = 0;
    proof {
        lemma_yv_pairs(h.entries@);
    }
    while i < h.entries.len()
        invariant
            i <= h.entries@.len(),
            *y == Yaml::Hash(*h),
            yv_pairs(out@) == yv_pairs(h.entries@).take(i as int),
        decreases h.entries.len() - i,
    {
        assert(decreases_to!(*y => (*y)->Hash_0));
        assert((*y)->Hash_0 == *h);
        assert(decreases_to!(*h => h.entries));
        assert(decreases_to!(h.entries => h.entries@));
        assert(decreases_to!(h.entries@ => h.entries@[i as int]));
        assert(decreases_to!(h.entries@[i as int] => h.entries@[i as int].0));
        assert(decreases_to!(*y => h.entries@[i as int].0));
        assert(decreases_to!(*y => h.entries@[i as int].1));
        let k = yaml_clone(&h.entries[i].0);
        let v = yaml_clone(&h.entries[i].1);
        let ghost before = out@;
        out.push((k, v));
        proof {
            lemma_yv_pairs(h.entries@);
            assert(out@.drop_last() =~= before);
        }
        i = i + 1;
        assert(yv_pairs(out@) =~= yv_pairs(h.entries@).take(i as int));
    }
    proof {
        lemma_yv_pairs(h.entries@);
    }
    assert(yv_pairs(h.entries@).take(i as int) =~= yv_pairs(h.entries@));
    YamlHash { entries: out }
}

/// The value of digit `c` in base `radix` (ASCII digits and letters,
/// either case), if it is a digit of that base.
pub open spec fn digit_value(c: char, radix: nat) -> Option<nat> {
    let v: int = if '0' <= c && c <= '9' {
        c as int - '0' as int
    } else if 'a' <= c && c <= 'z' {
        c as int - 'a' as int + 10
    } else if 'A' <= c && c <= 'Z' {
        c as int - 'A' as int + 10
    } else {
        -1
    };
    if 0 <= v < radix {
        Some(v as nat)
    } else {
        None
    }
}

/// The number that the digits `s` spell in base `radix`, if they all are
/// digits of that base (the empty text spells `0`).
pub open spec fn digits_value(s: Seq<char>, radix: nat) -> Option<nat>
    decreases s.len(),
{
    if s.len() == 0 {
        Some(0)
    } else {
        match (digits_value(s.drop_last(), radix), digit_value(s.last(), radix)) {
            (Some(v), Some(d)) => Some(v * radix + d),
            _ => None,
        }
    }
}

/// `i64::from_str_radix`: an optional `+` or `-`, then at least one digit of
/// the base; `None` when the text is not of that form or the number does not
/// fit in an `i64`.
pub open spec fn from_str_radix_spec(s: Seq<char>, radix: nat) -> Option<i64> {
    if s.len() == 0 {
        None
    } else {
        let neg = s[0] == '-';
        let ds = if s[0] == '+' || s[0] == '-' { s.drop_first() } else { s };
        if ds.len() == 0 {
            None
        } else {
            match digits_value(ds, radix) {
                None => None,
                Some(v) => {
                    let x: int = if neg { -(v as int) } else { v as int };
                    if i64::MIN <= x <= i64::MAX {
                        Some(x as i64)
                    } else {
                        None
                    }
                },
            }
        }
    }
}

proof fn lemma_digits_grow(s: Seq<char>, t: Seq<char>, radix: nat)
    requires
        radix >= 2,
        digits_value(s, radix) is Some,
    ensures
        digits_value(s + t, radix) matches Some(w) ==> w >= digits_value(s, radix).unwrap(),
    decreases t.len(),
{
    if t.len() > 0 {
        lemma_digits_grow(s, t.drop_last(), radix);
        assert((s + t).drop_last() =~= s + t.drop_last());
        let v = digits_value(s, radix).unwrap();
        if let Some(w0) = digits_value(s + t.drop_last(), radix) {
            assert(w0 * radix >= w0) by (nonlinear_arith)
                requires
                    radix >= 2,
                    w0 >= 0,
            ;
        }
    } else {
        assert(s + t =~= s);
    }
}

fn digit_of(c: char, radix: u32) -> (r: Option<u32>)
    requires
        2 <= radix <= 36,
    ensures
        match (r, digit_value(c, radix as nat)) {
            (Some(a), Some(b)) => a == b,
            (None, None) => true,
            _ => false,
        },
{
    let v: i64 = if '0' <= c && c <= '9' {
        (c as u32 - '0' as u32) as i64
    } else if 'a' <= c && c <= 'z' {
        (c as u32 - 'a' as u32 + 10) as i64
    } else if 'A' <= c && c <= 'Z' {
        (c as u32 - 'A' as u32 + 10) as i64
    } else {
        -1
    };
    if 0 <= v && v < radix as i64 {
        Some(v as u32)
    } else {
        None
    }
}

/// Parses `s` as an `i64` in base `radix` (see [`from_str_radix_spec`]).
pub fn from_str_radix(s: &Vec<char>, radix: u32) -> (r: Option<i64>)
    requires
        2 <= radix <= 36,
    ensures
        r == from_str_radix_spec(s@, radix as nat),
{
    if s.len() == 0 {
        return None;
    }
    let neg = s[0] == '-';
    let start: usize = if s[0] == '+' || s[0] == '-' { 1 } else { 0 };
    let ghost ds = if s@[0] == '+' || s@[0] == '-' { s@.drop_first() } else { s@ };
    assert(ds =~= s@.skip(start as int));
    if start == s.len() {
        return None;
    }
    // The magnitude read so far; larger than 2^63 means the result cannot fit.
    let mut acc: u64 = 0;
    let mut i = start;
    let limit: u64 = 0x8000_0000_0000_0000;
    while i < s.len()
        invariant
            start <= i <= s.len(),
            2 <= radix <= 36,
            ds == s@.skip(start as int),
            s.len() > 0,
            ds.len() > 0,
            ds == (if s@[0] == '+' || s@[0] == '-' { s@.drop_first() } else { s@ }),
            neg == (s@[0] == '-'),
            limit == 0x8000_0000_0000_0000u64,
            acc <= limit,
            digits_value(ds.take(i - start), radix as nat) == Some(acc as nat),
        decreases s.len() - i,
    {
        let ghost pre = ds.take(i - start);
        let ghost cur = ds.take(i + 1 - start);
        assert(cur.drop_last() =~= pre);
        assert(cur.last() == s@[i as int]);
        match digit_of(s[i], radix) {
            None => {
                proof {
                    assert(digits_value(cur, radix as nat) is None);
                    lemma_none_extends(cur, ds.skip(i + 1 - start), radix as nat);
                    assert(cur + ds.skip(i + 1 - start) =~= ds);
                    assert(digits_value(ds, radix as nat) is None);
                }
                return None;
            },
            Some(d) => {
                assert((acc as u128) * (radix as u128) <= 36 * 0x8000_0000_0000_0000u128)
                    by (nonlinear_arith)
                    requires
                        acc <= 0x8000_0000_0000_0000u64,
                        radix <= 36,
                ;
                let big = (acc as u128) * (radix as u128) + (d as u128);
                if big > limit as u128 {
                    proof {
                        lemma_digits_grow(cur, ds.skip(i + 1 - start), radix as nat);
                        assert(cur + ds.skip(i + 1 - start) =~= ds);
                    }
                    return None;
                }
                acc = big as u64;
            },
        }
        i = i + 1;
    }
    assert(ds.take(i - start) =~= ds);
    if neg {
        if acc == limit {
            Some(i64::MIN)
        } else {
            Some(-(acc as i64))
        }
    } else {
        if acc == limit {
            None
        } else {
            Some(acc as i64)
        }
    }
}

proof fn lemma_none_extends(s: Seq<char>, t: Seq<char>, radix: nat)
    requires
        digits_value(s, radix) is None,
    ensures
        digits_value(s + t, radix) is None,
    decreases t.len(),
{
    if t.len() > 0 {
        lemma_none_extends(s, t.drop_last(), radix);
        assert((s + t).drop_last() =~= s + t.drop_last());
    } else {
        assert(s + t =~= s);
    }
}


/// Whether `s` begins with `p`.
pub open spec fn starts_with(s: Seq<char>, p: Seq<char>) -> bool {
    s.len() >= p.len() && s.take(p.len() as int) == p
}

/// `s` with each don't-care digit `x` (and, where `upper` holds, `X`)
/// written as `0`.
pub open spec fn dont_care_as_zero(s: Seq<char>, upper: bool) -> Seq<char> {
    s.map_values(|c: char| if c == 'x' || (upper && c == 'X') { '0' } else { c })
}

/// The integer that the text `t` (already free of `_`) spells: `0x`/`0X`
/// introduce hexadecimal, `#` and `0b` binary with `x` for a don't-care bit
/// (after `#` the text is lowercased first, which for base 2 only turns `X`
/// into `x`), anything else is decimal.
pub open spec fn parse_int_text(t: Seq<char>) -> Option<i64> {
    if starts_with(t, seq!['0', 'x']) || starts_with(t, seq!['0', 'X']) {
        from_str_radix_spec(t.skip(2), 16)
    } else if t.len() > 0 && t[0] == '#' {
        from_str_radix_spec(dont_care_as_zero(t.skip(1), true), 2)
    } else if starts_with(t, seq!['0', 'b']) {
        from_str_radix_spec(dont_care_as_zero(t.skip(2), false), 2)
    } else {
        from_str_radix_spec(t, 10)
    }
}

/// The integer a node stands for: an integer node, or a string that
/// [`parse_int_text`] reads once its `_` separators are removed.
pub open spec fn parse_i64_spec(v: YamlV) -> Option<i64> {
    match v {
        YamlV::Integer(i) => Some(i),
        YamlV::Str(s) => parse_int_text(replace_all(s, seq!['_'], Seq::empty())),
        _ => None,
    }
}

/// The flag a node stands for: a boolean, the integers `0` and `1`, or the
/// strings `true`, `True`, `false`, `False`.
pub open spec fn parse_bool_spec(v: YamlV) -> Option<bool> {
    match v {
        YamlV::Boolean(b) => Some(b),
        YamlV::Integer(i) => if i == 0 {
            Some(false)
        } else if i == 1 {
            Some(true)
        } else {
            None
        },
        YamlV::Str(s) => if s == seq!['t', 'r', 'u', 'e'] || s == seq!['T', 'r', 'u', 'e'] {
            Some(true)
        } else if s == seq!['f', 'a', 'l', 's', 'e'] || s == seq!['F', 'a', 'l', 's', 'e'] {
            Some(false)
        } else {
            None
        },
        _ => None,
    }
}

fn has_prefix(cs: &Vec<char>, a: char, b: char) -> (r: bool)
    ensures
        r == starts_with(cs@, seq![a, b]),
{
    if cs.len() >= 2 && cs[0] == a && cs[1] == b {
        assert(cs@.take(2) =~= seq![a, b]);
        true
    } else {
        proof {
            if cs@.len() >= 2 {
                assert(cs@.take(2)[0] == cs@[0]);
                assert(cs@.take(2)[1] == cs@[1]);
            }
        }
        false
    }
}

/// The characters of `cs` from `lo` on, with don't-care digits as `0`.
fn digits_from(cs: &Vec<char>, lo: usize, upper: bool) -> (r: Vec<char>)
    requires
        lo <= cs.len(),
    ensures
        r@ == dont_care_as_zero(cs@.skip(lo as int), upper),
{
    let mut r: Vec<char> = Vec::new();
    let mut i = lo;
    while i < cs.len()
        invariant
            lo <= i <= cs.len(),
            r@ == dont_care_as_zero(cs@.skip(lo as int), upper).take(i - lo),
        decreases cs.len() - i,
    {
        let c = cs[i];
        r.push(if c == 'x' || (upper && c == 'X') { '0' } else { c });
        i = i + 1;
        assert(r@ =~= dont_care_as_zero(cs@.skip(lo as int), upper).take(i - lo));
    }
    assert(r@ =~= dont_care_as_zero(cs@.skip(lo as int), upper));
    r
}

/// Reads an integer out of a node (see [`parse_i64_spec`]).
pub fn parse_i64(val: &Yaml) -> (r: Option<i64>)
    ensures
        r == parse_i64_spec(yv(*val)),
{
    match val {
        Yaml::Integer(i) => Some(*i),
        Yaml::String(text) => {
            proof {
                reveal_strlit("_");
                reveal_strlit("");
            }
            let t = replace_str(text.as_str(), "_", "");
            let cs = chars_of(t.as_str());
            assert(seq!['_'] =~= "_"@);
            assert(Seq::<char>::empty() =~= ""@);
            if has_prefix(&cs, '0', 'x') || has_prefix(&cs, '0', 'X') {
                let hex = sub_digits(&cs, 2);
                from_str_radix(&hex, 16)
            } else if cs.len() > 0 && cs[0] == '#' {
                from_str_radix(&digits_from(&cs, 1, true), 2)
            } else if has_prefix(&cs, '0', 'b') {
                from_str_radix(&digits_from(&cs, 2, false), 2)
            } else {
                from_str_radix(&cs, 10)
            }
        },
        _ => None,
    }
}

/// The characters of `cs` from `lo` on.
fn sub_digits(cs: &Vec<char>, lo: usize) -> (r: Vec<char>)
    requires
        lo <= cs.len(),
    ensures
        r@ == cs@.skip(lo as int),
{
    let mut r: Vec<char> = Vec::new();
    let mut i = lo;
    while i < cs.len()
        invariant
            lo <= i <= cs.len(),
            r@ == cs@.skip(lo as int).take(i - lo),
        decreases cs.len() - i,
    {
        r.push(cs[i]);
        i = i + 1;
        assert(r@ =~= cs@.skip(lo as int).take(i - lo));
    }
    assert(r@ =~= cs@.skip(lo as int));
    r
}

/// Reads a flag out of a node (see [`parse_bool_spec`]).
pub fn parse_bool(val: &Yaml) -> (r: Option<bool>)
    ensures
        r == parse_bool_spec(yv(*val)),
{
    match val {
        Yaml::Boolean(b) => Some(*b),
        Yaml::Integer(i) => if *i == 0 {
            Some(false)
        } else if *i == 1 {
            Some(true)
        } else {
            None
        },
        Yaml::String(text) => {
            proof {
                reveal_strlit("true");
                reveal_strlit("True");
                reveal_strlit("false");
                reveal_strlit("False");
            }
            let t = text.as_str();
            assert(seq!['t', 'r', 'u', 'e'] =~= "true"@);
            assert(seq!['T', 'r', 'u', 'e'] =~= "True"@);
            assert(seq!['f', 'a', 'l', 's', 'e'] =~= "false"@);
            assert(seq!['F', 'a', 'l', 's', 'e'] =~= "False"@);
            if str_eq(t, "true") || str_eq(t, "True") {
                Some(true)
            } else if str_eq(t, "false") || str_eq(t, "False") {
                Some(false)
            } else {
                None
            }
        },
        _ => None,
    }
}


/// A node that does not have the type a rule asks for.
#[derive(Debug)]
pub enum YamlError {
    NotHash(Yaml),
    NotVec(Yaml),
    NotStr(Yaml),
    NotInt(Yaml),
    NotBool(Yaml),
}

/// The content of a [`YamlError`].
pub enum YamlErrorV {
    NotHash(YamlV),
    NotVec(YamlV),
    NotStr(YamlV),
    NotInt(YamlV),
    NotBool(YamlV),
}

impl View for YamlError {
    type V = YamlErrorV;

    open spec fn view(&self) -> YamlErrorV {
        match self {
            YamlError::NotHash(y) => YamlErrorV::NotHash(yv(*y)),
            YamlError::NotVec(y) => YamlErrorV::NotVec(yv(*y)),
            YamlError::NotStr(y) => YamlErrorV::NotStr(yv(*y)),
            YamlError::NotInt(y) => YamlErrorV::NotInt(yv(*y)),
            YamlError::NotBool(y) => YamlErrorV::NotBool(yv(*y)),
        }
    }
}

/// What reading the entry `found` gives: nothing when it is absent, the value
/// that `read` finds in it, or the error `err` names.
pub open spec fn read_entry<T>(
    found: Option<YamlV>,
    read: spec_fn(YamlV) -> Option<T>,
    err: spec_fn(YamlV) -> YamlErrorV,
) -> Result<Option<T>, YamlErrorV> {
    match found {
        None => Ok(None),
        Some(v) => match read(v) {
            Some(t) => Ok(Some(t)),
            None => Err(err(v)),
        },
    }
}

/// An exec result seen through the view of its error.
pub open spec fn res_view<T>(r: Result<T, YamlError>) -> Result<T, YamlErrorV> {
    match r {
        Ok(t) => Ok(t),
        Err(e) => Err(e@),
    }
}

/// A text result seen through views.
pub open spec fn str_res_view(r: Result<&str, YamlError>) -> Result<Seq<char>, YamlErrorV> {
    match r {
        Ok(t) => Ok(t@),
        Err(e) => Err(e@),
    }
}

/// An optional text result seen through views.
pub open spec fn opt_str_res_view(r: Result<Option<&str>, YamlError>) -> Result<
    Option<Seq<char>>,
    YamlErrorV,
> {
    match r {
        Ok(Some(t)) => Ok(Some(t@)),
        Ok(None) => Ok(None),
        Err(e) => Err(e@),
    }
}

/// An optional owned text result seen through views.
pub open spec fn opt_string_res_view(r: Result<Option<String>, YamlError>) -> Result<
    Option<Seq<char>>,
    YamlErrorV,
> {
    match r {
        Ok(Some(t)) => Ok(Some(t@)),
        Ok(None) => Ok(None),
        Err(e) => Err(e@),
    }
}

/// An optional mapping seen through its entries.
pub open spec fn opt_hash_view(o: Option<&YamlHash>) -> Option<Seq<(YamlV, YamlV)>> {
    match o {
        Some(h) => Some(h.view_pairs()),
        None => None,
    }
}

/// An optional mapping result seen through views.
pub open spec fn opt_hash_res_view(r: Result<Option<&YamlHash>, YamlError>) -> Result<
    Option<Seq<(YamlV, YamlV)>>,
    YamlErrorV,
> {
    match r {
        Ok(o) => Ok(opt_hash_view(o)),
        Err(e) => Err(e@),
    }
}

/// An optional sequence result seen through views.
pub open spec fn opt_vec_res_view(r: Result<Option<&Vec<Yaml>>, YamlError>) -> Result<
    Option<Seq<YamlV>>,
    YamlErrorV,
> {
    match r {
        Ok(Some(a)) => Ok(Some(yv_seq(a@))),
        Ok(None) => Ok(None),
        Err(e) => Err(e@),
    }
}

/// The text a string node holds.
pub open spec fn str_of(v: YamlV) -> Option<Seq<char>> {
    match v {
        YamlV::Str(s) => Some(s),
        _ => None,
    }
}

/// The entries of a mapping node.
pub open spec fn hash_of(v: YamlV) -> Option<Seq<(YamlV, YamlV)>> {
    match v {
        YamlV::Hash(h) => Some(h),
        _ => None,
    }
}

/// The items of a sequence node.
pub open spec fn vec_of(v: YamlV) -> Option<Seq<YamlV>> {
    match v {
        YamlV::Array(a) => Some(a),
        _ => None,
    }
}

impl Yaml {
    /// The mapping this node is.
    pub fn hash(&self) -> (r: Result<&YamlHash, YamlError>)
        ensures
            r matches Ok(h) ==> *self == Yaml::Hash(*h),
            r matches Err(e) ==> e@ == YamlErrorV::NotHash(yv(*self)),
            r is Ok <==> *self is Hash,
    {
        match self {
            Yaml::Hash(h) => Ok(h),
            _ => Err(YamlError::NotHash(yaml_clone(self))),
        }
    }

    /// The sequence this node is.
    pub fn vec(&self) -> (r: Result<&Vec<Yaml>, YamlError>)
        ensures
            r matches Ok(a) ==> *self == Yaml::Array(*a),
            r matches Err(e) ==> e@ == YamlErrorV::NotVec(yv(*self)),
            r is Ok <==> *self is Array,
    {
        match self {
            Yaml::Array(a) => Ok(a),
            _ => Err(YamlError::NotVec(yaml_clone(self))),
        }
    }

    /// The text this node is.
    pub fn str(&self) -> (r: Result<&str, YamlError>)
        ensures
            str_res_view(r) == match str_of(yv(*self)) {
                Some(t) => Ok::<Seq<char>, YamlErrorV>(t),
                None => Err(YamlErrorV::NotStr(yv(*self))),
            },
    {
        match self {
            Yaml::String(s) => Ok(s.as_str()),
            _ => Err(YamlError::NotStr(yaml_clone(self))),
        }
    }

    /// The integer this node stands for (see [`parse_i64_spec`]).
    pub fn i64(&self) -> (r: Result<i64, YamlError>)
        ensures
            res_view(r) == match parse_i64_spec(yv(*self)) {
                Some(i) => Ok::<i64, YamlErrorV>(i),
                None => Err(YamlErrorV::NotInt(yv(*self))),
            },
    {
        match parse_i64(self) {
            Some(i) => Ok(i),
            None => Err(YamlError::NotInt(yaml_clone(self))),
        }
    }

    /// The flag this node stands for (see [`parse_bool_spec`]).
    pub fn bool(&self) -> (r: Result<bool, YamlError>)
        ensures
            res_view(r) == match parse_bool_spec(yv(*self)) {
                Some(b) => Ok::<bool, YamlErrorV>(b),
                None => Err(YamlErrorV::NotBool(yv(*self))),
            },
    {
        match parse_bool(self) {
            Some(b) => Ok(b),
            None => Err(YamlError::NotBool(yaml_clone(self))),
        }
    }
}

/// A string node with the text `s`.
pub fn to_yaml(s: &str) -> (r: Yaml)
    ensures
        yv(r) == YamlV::Str(s@),
{
    Yaml::String(copy_str(s))
}

/// The value of the entry with the string key `k` in the mapping `ps`.
pub open spec fn entry(ps: Seq<(YamlV, YamlV)>, k: Seq<char>) -> Option<YamlV> {
    lookup(ps, YamlV::Str(k))
}

impl YamlHash {
    /// The value of the entry with the string key `k`.
    pub fn get_yaml(&self, k: &str) -> (r: Option<&Yaml>)
        ensures
            match (r, entry(self.view_pairs(), k@)) {
                (Some(v), Some(w)) => yv(*v) == w,
                (None, None) => true,
                _ => false,
            },
    {
        let key = to_yaml(k);
        self.get(&key)
    }

    /// The flag under `k`.
    pub fn get_bool(&self, k: &str) -> (r: Result<Option<bool>, YamlError>)
        ensures
            res_view(r) == read_entry(
                entry(self.view_pairs(), k@),
                |v: YamlV| parse_bool_spec(v),
                |v: YamlV| YamlErrorV::NotBool(v),
            ),
    {
        match self.get_yaml(k) {
            None => Ok(None),
            Some(v) => match v.bool() {
                Ok(b) => Ok(Some(b)),
                Err(e) => Err(e),
            },
        }
    }

    /// The integer under `k`.
    pub fn get_i64(&self, k: &str) -> (r: Result<Option<i64>, YamlError>)
        ensures
            res_view(r) == read_entry(
                entry(self.view_pairs(), k@),
                |v: YamlV| parse_i64_spec(v),
                |v: YamlV| YamlErrorV::NotInt(v),
            ),
    {
        match self.get_yaml(k) {
            None => Ok(None),
            Some(v) => match v.i64() {
                Ok(i) => Ok(Some(i)),
                Err(e) => Err(e),
            },
        }
    }

    /// The integer under `k`, taken modulo 2^64.
    pub fn get_u64(&self, k: &str) -> (r: Result<Option<u64>, YamlError>)
        ensures
            res_view(r) == read_entry(
                entry(self.view_pairs(), k@),
                |v: YamlV| match parse_i64_spec(v) { Some(i) => Some(i as u64), None => None },
                |v: YamlV| YamlErrorV::NotInt(v),
            ),
    {
        match self.get_i64(k) {
            Ok(Some(i)) => Ok(Some(i as u64)),
            Ok(None) => Ok(None),
            Err(e) => Err(e),
        }
    }

    /// The integer under `k`, taken modulo 2^32.
    pub fn get_u32(&self, k: &str) -> (r: Result<Option<u32>, YamlError>)
        ensures
            res_view(r) == read_entry(
                entry(self.view_pairs(), k@),
                |v: YamlV| match parse_i64_spec(v) { Some(i) => Some(i as u32), None => None },
                |v: YamlV| YamlErrorV::NotInt(v),
            ),
    {
        match self.get_i64(k) {
            Ok(Some(i)) => Ok(Some(i as u32)),
            Ok(None) => Ok(None),
            Err(e) => Err(e),
        }
    }

    /// The text under `k`.
    pub fn get_str(&self, k: &str) -> (r: Result<Option<&str>, YamlError>)
        ensures
            opt_str_res_view(r) == read_entry(
                entry(self.view_pairs(), k@),
                |v: YamlV| str_of(v),
                |v: YamlV| YamlErrorV::NotStr(v),
            ),
    {
        match self.get_yaml(k) {
            None => Ok(None),
            Some(v) => match v.str() {
                Ok(s) => Ok(Some(s)),
                Err(e) => Err(e),
            },
        }
    }

    /// A copy of the text under `k`.
    pub fn get_string(&self, k: &str) -> (r: Result<Option<String>, YamlError>)
        ensures
            opt_string_res_view(r) == read_entry(
                entry(self.view_pairs(), k@),
                |v: YamlV| str_of(v),
                |v: YamlV| YamlErrorV::NotStr(v),
            ),
    {
        match self.get_str(k) {
            Ok(Some(s)) => Ok(Some(copy_str(s))),
            Ok(None) => Ok(None),
            Err(e) => Err(e),
        }
    }

    /// The mapping under `k`.
    pub fn get_hash(&self, k: &str) -> (r: Result<Option<&YamlHash>, YamlError>)
        ensures
            opt_hash_res_view(r) == read_entry(
                entry(self.view_pairs(), k@),
                |v: YamlV| hash_of(v),
                |v: YamlV| YamlErrorV::NotHash(v),
            ),
    {
        match self.get_yaml(k) {
            None => Ok(None),
            Some(v) => match v.hash() {
                Ok(h) => Ok(Some(h)),
                Err(e) => Err(e),
            },
        }
    }

    /// The mapping under `k`, if there is one (any other value counts as
    /// none).
    pub fn hash_iter(&self, k: &str) -> (r: Option<&YamlHash>)
        ensures
            opt_hash_view(r) == match entry(self.view_pairs(), k@) {
                Some(v) => hash_of(v),
                None => None,
            },
    {
        match self.get_yaml(k) {
            Some(Yaml::Hash(h)) => Some(h),
            _ => None,
        }
    }

    /// The sequence under `k`.
    pub fn get_vec(&self, k: &str) -> (r: Result<Option<&Vec<Yaml>>, YamlError>)
        ensures
            opt_vec_res_view(r) == read_entry(
                entry(self.view_pairs(), k@),
                |v: YamlV| vec_of(v),
                |v: YamlV| YamlErrorV::NotVec(v),
            ),
    {
        match self.get_yaml(k) {
            None => Ok(None),
            Some(v) => match v.vec() {
                Ok(a) => Ok(Some(a)),
                Err(e) => Err(e),
            },
        }
    }

    /// The texts under `k`: the string itself, or the string items of a
    /// sequence in order (other items are passed over).
    pub fn str_vec_iter(&self, k: &str) -> (r: Vec<String>)
        ensures
            r@.map_values(|x: String| x@) == match entry(self.view_pairs(), k@) {
                Some(v) => str_items(v),
                None => Seq::empty(),
            },
    {
        match self.get_yaml(k) {
            None => Vec::new(),
            Some(v) => str_items_of(v),
        }
    }
}

/// The texts a node lists: a string gives itself, a sequence its string
/// items in order, anything else nothing.
pub open spec fn str_items(v: YamlV) -> Seq<Seq<char>> {
    match v {
        YamlV::Str(s) => seq![s],
        YamlV::Array(a) => a.filter(|x: YamlV| x is Str).map_values(|x: YamlV| x->Str_0),
        _ => Seq::empty(),
    }
}

fn str_items_of(v: &Yaml) -> (r: Vec<String>)
    ensures
        r@.map_values(|x: String| x@) == str_items(yv(*v)),
{
    broadcast use group_yaml_views;
    let mut out: Vec<String> = Vec::new();
    match v {
        Yaml::String(s) => {
            out.push(s.clone());
            assert(out@.map_values(|x: String| x@) =~= seq![s@]);
        },
        Yaml::Array(a) => {
            let ghost av = yv_seq(a@);
            let mut i: usize = 0;
            while i < a.len()
                invariant
                    i <= a@.len(),
                    av == yv_seq(a@),
                    av.len() == a@.len(),
                    forall|j: int| 0 <= j < a@.len() ==> av[j] == yv(a@[j]),
                    out@.map_values(|x: String| x@) == av.take(i as int).filter(
                        |x: YamlV| x is Str,
                    ).map_values(|x: YamlV| x->Str_0),
                decreases a.len() - i,
            {
                let ghost before = out@;
                assert(av.take(i + 1).drop_last() =~= av.take(i as int));
                proof {
                    av.take(i as int).lemma_filter_push(av[i as int], |x: YamlV| x is Str);
                    assert(av.take(i + 1) =~= av.take(i as int).push(av[i as int]));
                }
                match &a[i] {
                    Yaml::String(s) => {
                        out.push(s.clone());
                        assert(out@.map_values(|x: String| x@) =~= before.map_values(|x: String| x@).push(s@));
                    },
                    _ => {},
                }
                i = i + 1;
            }
            assert(av.take(i as int) =~= av);
        },
        _ => {
            assert(out@.map_values(|x: String| x@) =~= Seq::<Seq<char>>::empty());
        },
    }
    out
}

/// Walks the items of an optional list in order.
pub struct OptIter<T> {
    pub rest: Vec<T>,
}

impl<T> OptIter<T> {
    /// Create new optional iterator
    pub fn new(o: Option<Vec<T>>) -> (r: Self)
        ensures
            r.rest@ == match o {
                Some(v) => v@,
                None => Seq::empty(),
            },
    {
        match o {
            Some(v) => OptIter { rest: v },
            None => OptIter { rest: Vec::new() },
        }
    }

    /// The next item, if any is left.
    pub fn next(&mut self) -> (r: Option<T>)
        ensures
            old(self).rest@.len() == 0 ==> r is None && final(self).rest@ == old(self).rest@,
            old(self).rest@.len() > 0 ==> r == Some(old(self).rest@[0])
                && final(self).rest@ == old(self).rest@.drop_first(),
    {
        if self.rest.len() == 0 {
            None
        } else {
            Some(self.rest.remove(0))
        }
    }
}

} // verus!
