//! The strict domain configuration (`.opto-sync.toml`) that selects the audited
//! command-line flag contract and supplies environment defaults.
use vstd::prelude::*;
use crate::env_map::{merge_env, EnvMap};
use crate::text::{
    chars_of, find_char, first_index_from, is_control, is_control_exec, lemma_first_index_from_bounds,
    is_white_space, range_eq, trim, trim_end, trim_range, trim_start,
};

verus! {

// ---------------------------------------------------------------------------
// Messages
// ---------------------------------------------------------------------------

pub open spec fn invalid_message() -> Seq<char> {
    ".opto-sync.toml is invalid"@
}

pub open spec fn duplicate_field_message() -> Seq<char> {
    ".opto-sync.toml contains a duplicate field"@
}

pub open spec fn invalid_integer_message() -> Seq<char> {
    ".opto-sync.toml contains an invalid integer"@
}

pub open spec fn invalid_boolean_message() -> Seq<char> {
    ".opto-sync.toml contains an invalid boolean"@
}

pub open spec fn unquoted_string_message() -> Seq<char> {
    ".opto-sync.toml common envelope requires quoted strings"@
}

pub open spec fn unsafe_string_message() -> Seq<char> {
    ".opto-sync.toml contains an unsafe string"@
}

pub open spec fn escaped_string_message() -> Seq<char> {
    ".opto-sync.toml common envelope does not permit escaped strings"@
}

pub open spec fn unterminated_string_message() -> Seq<char> {
    ".opto-sync.toml has an unterminated string"@
}

/// A message that names one binding: `prefix`, the name, then `suffix`.
pub open spec fn named_message(prefix: &str, name: Seq<char>, suffix: &str) -> Seq<char> {
    prefix@ + name + suffix@
}

fn message(lit: &str) -> (m: String)
    ensures
        m@ == lit@,
{
    String::from_str(lit)
}

fn named(prefix: &str, name: &str, suffix: &str) -> (m: String)
    ensures
        m@ == named_message(prefix, name@, suffix),
{
    String::from_str(prefix).concat(name).concat(suffix)
}

// ---------------------------------------------------------------------------
// Scalar values
// ---------------------------------------------------------------------------

pub open spec fn is_ascii_digit(c: char) -> bool {
    48 <= (c as u32) <= 57
}

/// The decimal value of a sequence of ASCII digits.
pub open spec fn digits_value(d: Seq<char>) -> nat
    decreases d.len(),
{
    if d.len() == 0 {
        0
    } else {
        digits_value(d.drop_last()) * 10 + ((d.last() as u32) - 48) as nat
    }
}

/// The digits of an unsigned decimal: `s` without one leading `+`.
pub open spec fn unsigned_digits(s: Seq<char>) -> Seq<char> {
    if s.len() > 0 && s[0] == '+' {
        s.drop_first()
    } else {
        s
    }
}

/// `u32::from_str`: an optional `+`, then one or more decimal digits whose
/// value fits in `u32`.
pub open spec fn parse_u32_value(s: Seq<char>) -> Option<u32> {
    let d = unsigned_digits(s);
    if d.len() > 0 && (forall|i: int| 0 <= i < d.len() ==> is_ascii_digit(#[trigger] d[i]))
        && digits_value(d) <= u32::MAX {
        Some(digits_value(d) as u32)
    } else {
        None
    }
}

pub open spec fn parse_u32_spec(value: Seq<char>) -> Result<u32, Seq<char>> {
    match parse_u32_value(value) {
        Some(v) => Ok(v),
        None => Err(invalid_integer_message()),
    }
}

pub open spec fn parse_bool_spec(value: Seq<char>) -> Result<bool, Seq<char>> {
    if value == "true"@ {
        Ok(true)
    } else if value == "false"@ {
        Ok(false)
    } else {
        Err(invalid_boolean_message())
    }
}

/// A quoted string of the common envelope: its inside must be non-empty and
/// hold no control character and no backslash.
pub open spec fn parse_string_spec(value: Seq<char>) -> Result<Seq<char>, Seq<char>> {
    if !(value.len() >= 2 && value[0] == '"' && value.last() == '"') {
        Err(unquoted_string_message())
    } else {
        let inner = value.subrange(1, value.len() - 1);
        if inner.len() == 0 || (exists|i: int|
            0 <= i < inner.len() && (is_control(#[trigger] inner[i]) || inner[i] == '\\')) {
            Err(unsafe_string_message())
        } else {
            Ok(inner)
        }
    }
}

proof fn lemma_digits_value_prefix(d: Seq<char>, k: int)
    requires
        0 <= k <= d.len(),
    ensures
        digits_value(d.take(k)) <= digits_value(d),
    decreases d.len(),
{
    if k < d.len() {
        assert(d.drop_last().take(k) =~= d.take(k));
        lemma_digits_value_prefix(d.drop_last(), k);
    } else {
        assert(d.take(k) =~= d);
    }
}

fn parse_u32(buf: &Vec<char>, lo: usize, hi: usize) -> (r: Result<u32, String>)
    requires
        lo <= hi <= buf@.len(),
    ensures
        match (r, parse_u32_spec(buf@.subrange(lo as int, hi as int))) {
            (Ok(a), Ok(b)) => a == b,
            (Err(a), Err(b)) => a@ == b,
            _ => false,
        },
{
    let ghost s = buf@.subrange(lo as int, hi as int);
    let start = if lo < hi && buf[lo] == '+' {
        lo + 1
    } else {
        lo
    };
    let ghost d = buf@.subrange(start as int, hi as int);
    assert(s.len() > 0 && s[0] == '+' ==> s.drop_first() =~= d);
    assert(!(s.len() > 0 && s[0] == '+') ==> s =~= d);
    if start == hi {
        return Err(message(".opto-sync.toml contains an invalid integer"));
    }
    let mut acc: u64 = 0;
    let mut k = start;
    while k < hi
        invariant
            lo <= start <= k <= hi <= buf@.len(),
            d == buf@.subrange(start as int, hi as int),
            s == buf@.subrange(lo as int, hi as int),
            d == unsigned_digits(s),
            acc <= u32::MAX,
            acc == digits_value(d.take(k - start)),
            forall|i: int| 0 <= i < k - start ==> is_ascii_digit(#[trigger] d[i]),
        decreases hi - k,
    {
        let c = buf[k];
        let v = c as u32;
        if !(48 <= v && v <= 57) {
            assert(!is_ascii_digit(d[k - start]));
            return Err(message(".opto-sync.toml contains an invalid integer"));
        }
        assert(d.take(k + 1 - start).drop_last() =~= d.take(k - start));
        acc = acc * 10 + (v - 48) as u64;
        if acc > 0xffff_ffff {
            proof {
                if forall|i: int| 0 <= i < d.len() ==> is_ascii_digit(#[trigger] d[i]) {
                    lemma_digits_value_prefix(d, k + 1 - start);
                }
            }
            return Err(message(".opto-sync.toml contains an invalid integer"));
        }
        k = k + 1;
    }
    assert(d.take(hi - start) =~= d);
    Ok(acc as u32)
}

fn parse_bool(buf: &Vec<char>, lo: usize, hi: usize) -> (r: Result<bool, String>)
    requires
        lo <= hi <= buf@.len(),
    ensures
        match (r, parse_bool_spec(buf@.subrange(lo as int, hi as int))) {
            (Ok(a), Ok(b)) => a == b,
            (Err(a), Err(b)) => a@ == b,
            _ => false,
        },
{
    if range_eq(buf, lo, hi, "true") {
        Ok(true)
    } else if range_eq(buf, lo, hi, "false") {
        Ok(false)
    } else {
        Err(message(".opto-sync.toml contains an invalid boolean"))
    }
}

fn parse_string(source: &str, buf: &Vec<char>, lo: usize, hi: usize) -> (r: Result<
    String,
    String,
>)
    requires
        buf@ == source@,
        lo <= hi <= buf@.len(),
    ensures
        match (r, parse_string_spec(buf@.subrange(lo as int, hi as int))) {
            (Ok(a), Ok(b)) => a@ == b,
            (Err(a), Err(b)) => a@ == b,
            _ => false,
        },
{
    let ghost value = buf@.subrange(lo as int, hi as int);
    if !(hi - lo >= 2 && buf[lo] == '"' && buf[hi - 1] == '"') {
        return Err(message(".opto-sync.toml common envelope requires quoted strings"));
    }
    let ghost inner = value.subrange(1, value.len() - 1);
    assert(inner =~= buf@.subrange(lo + 1, hi - 1));
    if hi - lo == 2 {
        return Err(message(".opto-sync.toml contains an unsafe string"));
    }
    let mut k = lo + 1;
    while k < hi - 1
        invariant
            lo + 1 <= k <= hi - 1,
            hi <= buf@.len(),
            inner == buf@.subrange(lo + 1, hi - 1),
            value == buf@.subrange(lo as int, hi as int),
            value.len() >= 2 && value[0] == '"' && value.last() == '"',
            inner == value.subrange(1, value.len() - 1),
            forall|i: int|
                0 <= i < k - (lo + 1) ==> !(is_control(#[trigger] inner[i]) || inner[i] == '\\'),
        decreases hi - 1 - k,
    {
        let c = buf[k];
        if is_control_exec(c) || c == '\\' {
            assert(is_control(inner[k - (lo + 1)]) || inner[k - (lo + 1)] == '\\');
            return Err(message(".opto-sync.toml contains an unsafe string"));
        }
        k = k + 1;
    }
    let piece = source.substring_char(lo + 1, hi - 1);
    Ok(piece.to_owned())
}


// ---------------------------------------------------------------------------
// Comments
// ---------------------------------------------------------------------------

/// Where the comment of `s` starts, scanning from `i` with quoting state
/// `quoted`: a `#` outside quotes starts a comment, `"` toggles quoting, and a
/// backslash inside quotes is refused.
pub open spec fn comment_cut(s: Seq<char>, i: int, quoted: bool) -> Result<int, Seq<char>>
    decreases s.len() - i,
{
    if i < 0 || i >= s.len() {
        if quoted {
            Err(unterminated_string_message())
        } else {
            Ok(s.len() as int)
        }
    } else if s[i] == '"' {
        comment_cut(s, i + 1, !quoted)
    } else if s[i] == '#' && !quoted {
        Ok(i)
    } else if s[i] == '\\' && quoted {
        Err(escaped_string_message())
    } else {
        comment_cut(s, i + 1, quoted)
    }
}

/// `line` without its comment.
pub open spec fn strip_comment_spec(line: Seq<char>) -> Result<Seq<char>, Seq<char>> {
    match comment_cut(line, 0, false) {
        Ok(cut) => Ok(line.take(cut)),
        Err(e) => Err(e),
    }
}

/// The end of the comment-free part of `buf[lo..hi]`.
fn strip_comment(buf: &Vec<char>, lo: usize, hi: usize) -> (r: Result<usize, String>)
    requires
        lo <= hi <= buf@.len(),
    ensures
        match (r, strip_comment_spec(buf@.subrange(lo as int, hi as int))) {
            (Ok(cut), Ok(stripped)) => lo <= cut <= hi && buf@.subrange(lo as int, cut as int)
                == stripped,
            (Err(a), Err(b)) => a@ == b,
            _ => false,
        },
{
    let ghost line = buf@.subrange(lo as int, hi as int);
    let mut quoted = false;
    let mut k = lo;
    while k < hi
        invariant
            lo <= k <= hi <= buf@.len(),
            line == buf@.subrange(lo as int, hi as int),
            comment_cut(line, 0, false) == comment_cut(line, k - lo, quoted),
        decreases hi - k,
    {
        let c = buf[k];
        if c == '"' {
            quoted = !quoted;
        } else if c == '#' && !quoted {
            assert(line.take(k - lo) =~= buf@.subrange(lo as int, k as int));
            return Ok(k);
        } else if c == '\\' && quoted {
            return Err(message(".opto-sync.toml common envelope does not permit escaped strings"));
        }
        k = k + 1;
    }
    if quoted {
        Err(message(".opto-sync.toml has an unterminated string"))
    } else {
        assert(line.take(hi - lo) =~= line);
        Ok(hi)
    }
}

// ---------------------------------------------------------------------------
// Bindings
// ---------------------------------------------------------------------------

pub open spec fn opt_str(o: Option<String>) -> Option<Seq<char>> {
    match o {
        Some(s) => Some(s@),
        None => None,
    }
}

/// One environment binding of the domain configuration.
pub struct BindingModel {
    pub name: Seq<char>,
    pub key: Seq<char>,
    pub kind: Seq<char>,
    pub required: bool,
    pub secret: bool,
    pub default: Option<Seq<char>>,
}

/// The fields of an `[[env]]` table read so far.
pub struct BuilderModel {
    pub name: Option<Seq<char>>,
    pub key: Option<Seq<char>>,
    pub kind: Option<Seq<char>>,
    pub required: Option<bool>,
    pub secret: Option<bool>,
    pub default: Option<Seq<char>>,
}

pub open spec fn empty_builder() -> BuilderModel {
    BuilderModel { name: None, key: None, kind: None, required: None, secret: None, default: None }
}

/// A field may be given once.
pub open spec fn set_once_spec<T>(slot: Option<T>, value: T) -> Result<Option<T>, Seq<char>> {
    if slot is Some {
        Err(duplicate_field_message())
    } else {
        Ok(Some(value))
    }
}

/// Reads `key = value` into an `[[env]]` table; unknown keys are ignored.
pub open spec fn assign_spec(b: BuilderModel, key: Seq<char>, value: Seq<char>) -> Result<
    BuilderModel,
    Seq<char>,
> {
    if key == "name"@ {
        match parse_string_spec(value) {
            Err(e) => Err(e),
            Ok(v) => match set_once_spec(b.name, v) {
                Err(e) => Err(e),
                Ok(f) => Ok(BuilderModel { name: f, ..b }),
            },
        }
    } else if key == "key"@ {
        match parse_string_spec(value) {
            Err(e) => Err(e),
            Ok(v) => match set_once_spec(b.key, v) {
                Err(e) => Err(e),
                Ok(f) => Ok(BuilderModel { key: f, ..b }),
            },
        }
    } else if key == "kind"@ {
        match parse_string_spec(value) {
            Err(e) => Err(e),
            Ok(v) => match set_once_spec(b.kind, v) {
                Err(e) => Err(e),
                Ok(f) => Ok(BuilderModel { kind: f, ..b }),
            },
        }
    } else if key == "required"@ {
        match parse_bool_spec(value) {
            Err(e) => Err(e),
            Ok(v) => match set_once_spec(b.required, v) {
                Err(e) => Err(e),
                Ok(f) => Ok(BuilderModel { required: f, ..b }),
            },
        }
    } else if key == "secret"@ {
        match parse_bool_spec(value) {
            Err(e) => Err(e),
            Ok(v) => match set_once_spec(b.secret, v) {
                Err(e) => Err(e),
                Ok(f) => Ok(BuilderModel { secret: f, ..b }),
            },
        }
    } else if key == "default"@ {
        match parse_string_spec(value) {
            Err(e) => Err(e),
            Ok(v) => match set_once_spec(b.default, v) {
                Err(e) => Err(e),
                Ok(f) => Ok(BuilderModel { default: f, ..b }),
            },
        }
    } else {
        Ok(b)
    }
}

/// A complete `[[env]]` table: name, key, kind, required and secret are all
/// given, and a secret binding has no plaintext default.
pub open spec fn finish_spec(b: BuilderModel) -> Result<BindingModel, Seq<char>> {
    match b.name {
        None => Err(".opto-sync.toml env binding has no name"@),
        Some(name) => match b.key {
            None => Err(named_message(".opto-sync.toml binding ", name, " has no key")),
            Some(key) => match b.kind {
                None => Err(named_message(".opto-sync.toml binding ", name, " has no kind")),
                Some(kind) => match b.required {
                    None => Err(
                        named_message(".opto-sync.toml binding ", name, " has no required flag"),
                    ),
                    Some(required) => match b.secret {
                        None => Err(
                            named_message(".opto-sync.toml binding ", name, " has no secret flag"),
                        ),
                        Some(secret) => if secret && b.default is Some {
                            Err(
                                named_message(
                                    ".opto-sync.toml secret binding ",
                                    name,
                                    " may not have a plaintext default",
                                ),
                            )
                        } else {
                            Ok(BindingModel { name, key, kind, required, secret, default: b.default })
                        },
                    },
                },
            },
        },
    }
}

/// One environment binding of the domain configuration.
#[derive(Debug, Clone, PartialEq, Eq)]
pub struct DomainBinding {
    name: String,
    key: String,
    kind: String,
    required: bool,
    secret: bool,
    default: Option<String>,
}

impl View for DomainBinding {
    type V = BindingModel;

    closed spec fn view(&self) -> BindingModel {
        BindingModel {
            name: self.name@,
            key: self.key@,
            kind: self.kind@,
            required: self.required,
            secret: self.secret,
            default: opt_str(self.default),
        }
    }
}

#[derive(Default)]
struct BindingBuilder {
    name: Option<String>,
    key: Option<String>,
    kind: Option<String>,
    required: Option<bool>,
    secret: Option<bool>,
    default: Option<String>,
}

impl View for BindingBuilder {
    type V = BuilderModel;

    closed spec fn view(&self) -> BuilderModel {
        BuilderModel {
            name: opt_str(self.name),
            key: opt_str(self.key),
            kind: opt_str(self.kind),
            required: self.required,
            secret: self.secret,
            default: opt_str(self.default),
        }
    }
}

fn set_once<T>(slot: &mut Option<T>, value: T) -> (r: Result<(), String>)
    ensures
        match r {
            Ok(_) => *old(slot) is None && *final(slot) == Some(value),
            Err(e) => *old(slot) is Some && *final(slot) == *old(slot) && e@
                == duplicate_field_message(),
        },
{
    if slot.is_some() {
        return Err(message(".opto-sync.toml contains a duplicate field"));
    }
    *slot = Some(value);
    Ok(())
}

fn assign_string(
    slot: &mut Option<String>,
    source: &str,
    buf: &Vec<char>,
    vlo: usize,
    vhi: usize,
) -> (r: Result<(), String>)
    requires
        buf@ == source@,
        vlo <= vhi <= buf@.len(),
    ensures
        step_matches(
            r,
            match parse_string_spec(buf@.subrange(vlo as int, vhi as int)) {
                Err(e) => Err(e),
                Ok(v) => set_once_spec(opt_str(*old(slot)), v),
            },
            opt_str(*final(slot)),
        ),
        r is Err ==> *final(slot) == *old(slot),
{
    let v = match parse_string(source, buf, vlo, vhi) {
        Ok(v) => v,
        Err(e) => return Err(e),
    };
    set_once(slot, v)
}

fn assign_bool(slot: &mut Option<bool>, buf: &Vec<char>, vlo: usize, vhi: usize) -> (r: Result<
    (),
    String,
>)
    requires
        vlo <= vhi <= buf@.len(),
    ensures
        step_matches(
            r,
            match parse_bool_spec(buf@.subrange(vlo as int, vhi as int)) {
                Err(e) => Err(e),
                Ok(v) => set_once_spec(*old(slot), v),
            },
            *final(slot),
        ),
        r is Err ==> *final(slot) == *old(slot),
{
    let v = match parse_bool(buf, vlo, vhi) {
        Ok(v) => v,
        Err(e) => return Err(e),
    };
    set_once(slot, v)
}


/// Whether a fallible step on a state went as `expected` says.
pub open spec fn step_matches<T>(r: Result<(), String>, expected: Result<T, Seq<char>>, after: T) -> bool {
    match (r, expected) {
        (Ok(_), Ok(v)) => after == v,
        (Err(a), Err(b)) => a@ == b,
        _ => false,
    }
}

impl BindingBuilder {
    fn new() -> (b: Self)
        ensures
            b@ == empty_builder(),
    {
        BindingBuilder { name: None, key: None, kind: None, required: None, secret: None, default: None }
    }

    fn assign(
        &mut self,
        source: &str,
        buf: &Vec<char>,
        klo: usize,
        khi: usize,
        vlo: usize,
        vhi: usize,
    ) -> (r: Result<(), String>)
        requires
            buf@ == source@,
            klo <= khi <= buf@.len(),
            vlo <= vhi <= buf@.len(),
        ensures
            step_matches(
                r,
                assign_spec(
                    old(self)@,
                    buf@.subrange(klo as int, khi as int),
                    buf@.subrange(vlo as int, vhi as int),
                ),
                final(self)@,
            ),
            r is Err ==> final(self)@ == old(self)@,
    {
        if range_eq(buf, klo, khi, "name") {
            assign_string(&mut self.name, source, buf, vlo, vhi)
        } else if range_eq(buf, klo, khi, "key") {
            assign_string(&mut self.key, source, buf, vlo, vhi)
        } else if range_eq(buf, klo, khi, "kind") {
            assign_string(&mut self.kind, source, buf, vlo, vhi)
        } else if range_eq(buf, klo, khi, "required") {
            assign_bool(&mut self.required, buf, vlo, vhi)
        } else if range_eq(buf, klo, khi, "secret") {
            assign_bool(&mut self.secret, buf, vlo, vhi)
        } else if range_eq(buf, klo, khi, "default") {
            assign_string(&mut self.default, source, buf, vlo, vhi)
        } else {
            Ok(())
        }
    }

    fn finish(self) -> (r: Result<DomainBinding, String>)
        ensures
            match (r, finish_spec(self@)) {
                (Ok(a), Ok(b)) => a@ == b,
                (Err(a), Err(b)) => a@ == b,
                _ => false,
            },
    {
        let name = match self.name {
            Some(name) => name,
            None => return Err(message(".opto-sync.toml env binding has no name")),
        };
        let key = match self.key {
            Some(key) => key,
            None => return Err(named(".opto-sync.toml binding ", name.as_str(), " has no key")),
        };
        let kind = match self.kind {
            Some(kind) => kind,
            None => return Err(named(".opto-sync.toml binding ", name.as_str(), " has no kind")),
        };
        let required = match self.required {
            Some(required) => required,
            None => return Err(
                named(".opto-sync.toml binding ", name.as_str(), " has no required flag"),
            ),
        };
        let secret = match self.secret {
            Some(secret) => secret,
            None => return Err(
                named(".opto-sync.toml binding ", name.as_str(), " has no secret flag"),
            ),
        };
        if secret && self.default.is_some() {
            return Err(
                named(
                    ".opto-sync.toml secret binding ",
                    name.as_str(),
                    " may not have a plaintext default",
                ),
            );
        }
        Ok(DomainBinding { name, key, kind, required, secret, default: self.default })
    }
}


// ---------------------------------------------------------------------------
// Validation of the bindings
// ---------------------------------------------------------------------------

pub open spec fn is_ascii_lower(c: char) -> bool {
    97 <= (c as u32) <= 122
}

pub open spec fn is_ascii_upper(c: char) -> bool {
    65 <= (c as u32) <= 90
}

/// A binding name: 1 to 64 lowercase ASCII letters, digits or underscores,
/// starting with a letter.
pub open spec fn is_valid_name(s: Seq<char>) -> bool {
    &&& 1 <= s.len() <= 64
    &&& is_ascii_lower(s[0])
    &&& forall|i: int|
        0 <= i < s.len() ==> is_ascii_lower(#[trigger] s[i]) || is_ascii_digit(s[i]) || s[i] == '_'
}

/// An environment key: 1 to 128 uppercase ASCII letters, digits or
/// underscores, starting with a letter or an underscore.
pub open spec fn is_valid_env_key(s: Seq<char>) -> bool {
    &&& 1 <= s.len() <= 128
    &&& (is_ascii_upper(s[0]) || s[0] == '_')
    &&& forall|i: int|
        0 <= i < s.len() ==> is_ascii_upper(#[trigger] s[i]) || is_ascii_digit(s[i]) || s[i] == '_'
}

pub open spec fn is_valid_kind(k: Seq<char>) -> bool {
    ||| k == "string"@
    ||| k == "bool"@
    ||| k == "integer"@
    ||| k == "double"@
    ||| k == "json"@
    ||| k == "url"@
}

/// Whether two bindings share a name or an environment key.
pub open spec fn aliases(a: BindingModel, b: BindingModel) -> bool {
    a.name == b.name || a.key == b.key
}

/// What is wrong with binding `i`, given the bindings before it.
pub open spec fn binding_problem(bs: Seq<BindingModel>, i: int) -> Option<Seq<char>> {
    let b = bs[i];
    if !(is_valid_name(b.name) && is_valid_env_key(b.key) && is_valid_kind(b.kind)) {
        Some(named_message(".opto-sync.toml binding ", b.name, " is invalid"))
    } else if exists|j: int| 0 <= j < i && aliases(#[trigger] bs[j], b) {
        Some(
            named_message(
                ".opto-sync.toml binding ",
                b.name,
                " is duplicated or aliases another binding",
            ),
        )
    } else {
        None
    }
}

/// The first problem among the bindings from `i` on.
pub open spec fn bindings_problem(bs: Seq<BindingModel>, i: int) -> Option<Seq<char>>
    decreases bs.len() - i,
{
    if i < 0 || i >= bs.len() {
        None
    } else {
        match binding_problem(bs, i) {
            Some(e) => Some(e),
            None => bindings_problem(bs, i + 1),
        }
    }
}

fn valid_name(s: &String) -> (b: bool)
    ensures
        b == is_valid_name(s@),
{
    let v = chars_of(s.as_str());
    let n = v.len();
    if n == 0 || n > 64 {
        return false;
    }
    let first = v[0] as u32;
    if !(97 <= first && first <= 122) {
        return false;
    }
    let mut k: usize = 0;
    while k < n
        invariant
            k <= n == v@.len() == s@.len(),
            v@ == s@,
            forall|i: int|
                0 <= i < k ==> is_ascii_lower(#[trigger] v@[i]) || is_ascii_digit(v@[i]) || v@[i]
                    == '_',
        decreases n - k,
    {
        let c = v[k];
        let x = c as u32;
        if !((97 <= x && x <= 122) || (48 <= x && x <= 57) || c == '_') {
            return false;
        }
        k = k + 1;
    }
    true
}

fn valid_env_key(s: &String) -> (b: bool)
    ensures
        b == is_valid_env_key(s@),
{
    let v = chars_of(s.as_str());
    let n = v.len();
    if n == 0 || n > 128 {
        return false;
    }
    let first = v[0] as u32;
    if !((65 <= first && first <= 90) || v[0] == '_') {
        return false;
    }
    let mut k: usize = 0;
    while k < n
        invariant
            k <= n == v@.len() == s@.len(),
            v@ == s@,
            forall|i: int|
                0 <= i < k ==> is_ascii_upper(#[trigger] v@[i]) || is_ascii_digit(v@[i]) || v@[i]
                    == '_',
        decreases n - k,
    {
        let c = v[k];
        let x = c as u32;
        if !((65 <= x && x <= 90) || (48 <= x && x <= 57) || c == '_') {
            return false;
        }
        k = k + 1;
    }
    true
}

fn str_eq(a: &String, lit: &str) -> (b: bool)
    ensures
        b == (a@ == lit@),
{
    *a == String::from_str(lit)
}

fn valid_kind(k: &String) -> (b: bool)
    ensures
        b == is_valid_kind(k@),
{
    str_eq(k, "string") || str_eq(k, "bool") || str_eq(k, "integer") || str_eq(k, "double")
        || str_eq(k, "json") || str_eq(k, "url")
}

pub open spec fn bindings_view(v: Seq<DomainBinding>) -> Seq<BindingModel> {
    v.map_values(|b: DomainBinding| b@)
}

fn validate_bindings(bindings: &Vec<DomainBinding>) -> (r: Result<(), String>)
    ensures
        match (r, bindings_problem(bindings_view(bindings@), 0)) {
            (Ok(_), None) => true,
            (Err(a), Some(b)) => a@ == b,
            _ => false,
        },
{
    let ghost bs = bindings_view(bindings@);
    let n = bindings.len();
    let mut i: usize = 0;
    while i < n
        invariant
            i <= n == bindings@.len() == bs.len(),
            bs == bindings_view(bindings@),
            bindings_problem(bs, 0) == bindings_problem(bs, i as int),
        decreases n - i,
    {
        let b = &bindings[i];
        assert(bs[i as int] == b@);
        if !(valid_name(&b.name) && valid_env_key(&b.key) && valid_kind(&b.kind)) {
            return Err(named(".opto-sync.toml binding ", b.name.as_str(), " is invalid"));
        }
        let mut j: usize = 0;
        while j < i
            invariant
                j <= i < n == bindings@.len() == bs.len(),
                bs == bindings_view(bindings@),
                b@ == bs[i as int],
                bindings_problem(bs, 0) == bindings_problem(bs, i as int),
                is_valid_name(bs[i as int].name) && is_valid_env_key(bs[i as int].key) && is_valid_kind(
                    bs[i as int].kind,
                ),
                forall|k: int| 0 <= k < j ==> !aliases(#[trigger] bs[k], bs[i as int]),
            decreases i - j,
        {
            let other = &bindings[j];
            assert(bs[j as int] == other@);
            let same_name = other.name == b.name;
            let same_key = other.key == b.key;
            assert(same_name == (other@.name == b@.name));
            assert(same_key == (other@.key == b@.key));
            if same_name || same_key {
                assert(aliases(bs[j as int], bs[i as int]));
                return Err(
                    named(
                        ".opto-sync.toml binding ",
                        b.name.as_str(),
                        " is duplicated or aliases another binding",
                    ),
                );
            }
            assert(!aliases(bs[j as int], bs[i as int]));
            j = j + 1;
        }
        assert(binding_problem(bs, i as int) is None);
        i = i + 1;
    }
    Ok(())
}

// ---------------------------------------------------------------------------
// The whole configuration
// ---------------------------------------------------------------------------

/// Which table of the configuration the current line belongs to.
#[derive(Clone, Copy, Debug, PartialEq, Eq, Structural)]
pub enum Section {
    Root,
    Flags,
    Env,
    Other,
}

/// What has been read of the configuration so far.
pub struct ParseState {
    pub section: Section,
    pub version: Option<u32>,
    pub mode: Option<Seq<char>>,
    pub strict: Option<bool>,
    pub contract: Option<Seq<char>>,
    pub require_audit: Option<bool>,
    pub precedence: Option<Seq<char>>,
    pub bindings: Seq<BindingModel>,
    pub current: Option<BuilderModel>,
}

pub open spec fn initial_state() -> ParseState {
    ParseState {
        section: Section::Root,
        version: None,
        mode: None,
        strict: None,
        contract: None,
        require_audit: None,
        precedence: None,
        bindings: Seq::empty(),
        current: None,
    }
}

/// Closes the open `[[env]]` table, if there is one.
pub open spec fn finish_current_spec(st: ParseState) -> Result<ParseState, Seq<char>> {
    match st.current {
        None => Ok(st),
        Some(b) => match finish_spec(b) {
            Err(e) => Err(e),
            Ok(binding) => Ok(ParseState { bindings: st.bindings.push(binding), current: None, ..st }),
        },
    }
}

/// Reads `key = value` in the current section.
pub open spec fn field_spec(st: ParseState, key: Seq<char>, value: Seq<char>) -> Result<
    ParseState,
    Seq<char>,
> {
    match st.section {
        Section::Root => if key == "version"@ {
            match parse_u32_spec(value) {
                Err(e) => Err(e),
                Ok(v) => match set_once_spec(st.version, v) {
                    Err(e) => Err(e),
                    Ok(f) => Ok(ParseState { version: f, ..st }),
                },
            }
        } else if key == "mode"@ {
            match parse_string_spec(value) {
                Err(e) => Err(e),
                Ok(v) => match set_once_spec(st.mode, v) {
                    Err(e) => Err(e),
                    Ok(f) => Ok(ParseState { mode: f, ..st }),
                },
            }
        } else if key == "strict"@ {
            match parse_bool_spec(value) {
                Err(e) => Err(e),
                Ok(v) => match set_once_spec(st.strict, v) {
                    Err(e) => Err(e),
                    Ok(f) => Ok(ParseState { strict: f, ..st }),
                },
            }
        } else {
            Ok(st)
        },
        Section::Flags => if key == "contract"@ {
            match parse_string_spec(value) {
                Err(e) => Err(e),
                Ok(v) => match set_once_spec(st.contract, v) {
                    Err(e) => Err(e),
                    Ok(f) => Ok(ParseState { contract: f, ..st }),
                },
            }
        } else if key == "require_audit"@ {
            match parse_bool_spec(value) {
                Err(e) => Err(e),
                Ok(v) => match set_once_spec(st.require_audit, v) {
                    Err(e) => Err(e),
                    Ok(f) => Ok(ParseState { require_audit: f, ..st }),
                },
            }
        } else if key == "precedence"@ {
            match parse_string_spec(value) {
                Err(e) => Err(e),
                Ok(v) => match set_once_spec(st.precedence, v) {
                    Err(e) => Err(e),
                    Ok(f) => Ok(ParseState { precedence: f, ..st }),
                },
            }
        } else {
            Ok(st)
        },
        Section::Env => match st.current {
            None => Err(invalid_message()),
            Some(b) => match assign_spec(b, key, value) {
                Err(e) => Err(e),
                Ok(b2) => Ok(ParseState { current: Some(b2), ..st }),
            },
        },
        Section::Other => Ok(st),
    }
}

/// Opens a new section, closing any open `[[env]]` table first.
pub open spec fn enter_section(st: ParseState, section: Section) -> Result<ParseState, Seq<char>> {
    match finish_current_spec(st) {
        Err(e) => Err(e),
        Ok(f) => Ok(
            ParseState {
                section,
                current: if section == Section::Env {
                    Some(empty_builder())
                } else {
                    None
                },
                ..f
            },
        ),
    }
}

/// Reads one comment-free, trimmed line.
pub open spec fn line_spec(st: ParseState, line: Seq<char>) -> Result<ParseState, Seq<char>> {
    if line.len() == 0 {
        Ok(st)
    } else if line == "[[env]]"@ {
        enter_section(st, Section::Env)
    } else if line == "[flags2env]"@ {
        enter_section(st, Section::Flags)
    } else if line[0] == '[' && line.last() == ']' {
        enter_section(st, Section::Other)
    } else {
        let i = first_index_from(line, '=', 0);
        if i >= line.len() {
            Err(invalid_message())
        } else {
            field_spec(st, trim(line.subrange(0, i)), trim(line.subrange(i + 1, line.len() as int)))
        }
    }
}

/// Reads one raw line of the configuration.
pub open spec fn step_spec(st: ParseState, raw: Seq<char>) -> Result<ParseState, Seq<char>> {
    match strip_comment_spec(raw) {
        Err(e) => Err(e),
        Ok(content) => line_spec(st, trim(content)),
    }
}

/// The line of `s` that starts at `i` and ends before the line feed at `e`
/// (or at the end of `s`), as `str::lines` yields it: a carriage return that
/// precedes the line feed is not part of it.
pub open spec fn line_at(s: Seq<char>, i: int, e: int) -> Seq<char> {
    let raw = s.subrange(i, e);
    if e < s.len() && raw.len() > 0 && raw.last() == '\r' {
        raw.drop_last()
    } else {
        raw
    }
}

/// Reads the lines of `s` from position `i` on, starting in state `st`.
pub open spec fn process_spec(s: Seq<char>, i: int, st: ParseState) -> Result<ParseState, Seq<char>>
    decreases s.len() + 1 - i,
{
    if i < 0 || i >= s.len() {
        Ok(st)
    } else {
        proof {
            lemma_first_index_from_bounds(s, '\n', i);
        }
        let e = first_index_from(s, '\n', i);
        match step_spec(st, line_at(s, i, e)) {
            Err(x) => Err(x),
            Ok(next) => process_spec(s, e + 1, next),
        }
    }
}

/// A parsed domain configuration.
pub struct DomainConfigModel {
    pub contract: Seq<char>,
    pub bindings: Seq<BindingModel>,
}

/// The checks made once every line has been read.
pub open spec fn finalize_spec(st: ParseState) -> Result<DomainConfigModel, Seq<char>> {
    match finish_current_spec(st) {
        Err(e) => Err(e),
        Ok(f) => if !(f.version == Some(1u32) && f.mode == Some("server"@) && f.strict == Some(
            true,
        )) {
            Err(".opto-sync.toml must be strict version-1 server config"@)
        } else {
            match f.contract {
                None => Err(".opto-sync.toml has no flags contract"@),
                Some(c) => if !(c == ".cli-flags.toml"@ && f.require_audit == Some(true)
                    && f.precedence == Some("argv-over-env"@)) {
                    Err(
                        ".opto-sync.toml must select audited .cli-flags.toml with argv-over-env precedence"@,
                    )
                } else {
                    match bindings_problem(f.bindings, 0) {
                        Some(e) => Err(e),
                        None => Ok(DomainConfigModel { contract: c, bindings: f.bindings }),
                    }
                },
            }
        },
    }
}

/// The largest configuration accepted, in bytes.
pub const MAX_DOMAIN_CONFIG_BYTES: usize = 64 * 1024;

/// What parsing the configuration text `s` gives.
pub open spec fn parse_spec(s: Seq<char>) -> Result<DomainConfigModel, Seq<char>> {
    let bytes = vstd::utf8::encode_utf8(s);
    if bytes.len() > MAX_DOMAIN_CONFIG_BYTES || bytes.contains(0u8) {
        Err(invalid_message())
    } else {
        match process_spec(s, 0, initial_state()) {
            Err(e) => Err(e),
            Ok(st) => finalize_spec(st),
        }
    }
}

struct ParserState {
    section: Section,
    version: Option<u32>,
    mode: Option<String>,
    strict: Option<bool>,
    contract: Option<String>,
    require_audit: Option<bool>,
    precedence: Option<String>,
    bindings: Vec<DomainBinding>,
    current: Option<BindingBuilder>,
}

impl View for ParserState {
    type V = ParseState;

    closed spec fn view(&self) -> ParseState {
        ParseState {
            section: self.section,
            version: self.version,
            mode: opt_str(self.mode),
            strict: self.strict,
            contract: opt_str(self.contract),
            require_audit: self.require_audit,
            precedence: opt_str(self.precedence),
            bindings: bindings_view(self.bindings@),
            current: match self.current {
                Some(b) => Some(b@),
                None => None,
            },
        }
    }
}

impl ParserState {
    fn new() -> (st: Self)
        ensures
            st@ == initial_state(),
    {
        let st = ParserState {
            section: Section::Root,
            version: None,
            mode: None,
            strict: None,
            contract: None,
            require_audit: None,
            precedence: None,
            bindings: Vec::new(),
            current: None,
        };
        assert(st@.bindings =~= Seq::<BindingModel>::empty());
        st
    }

    fn finish_binding(&mut self) -> (r: Result<(), String>)
        ensures
            step_matches(r, finish_current_spec(old(self)@), final(self)@),
            r is Err ==> final(self)@ == (ParseState { current: None, ..old(self)@ }),
    {
        match self.current.take() {
            None => Ok(()),
            Some(builder) => {
                let binding = match builder.finish() {
                    Ok(b) => b,
                    Err(e) => return Err(e),
                };
                self.bindings.push(binding);
                assert(bindings_view(self.bindings@) =~= bindings_view(old(self).bindings@).push(
                    binding@,
                ));
                Ok(())
            },
        }
    }

    fn enter(&mut self, section: Section) -> (r: Result<(), String>)
        ensures
            step_matches(r, enter_section(old(self)@, section), final(self)@),
    {
        if let Err(e) = self.finish_binding() {
            return Err(e);
        }
        if section == Section::Env {
            self.current = Some(BindingBuilder::new());
        }
        self.section = section;
        Ok(())
    }

    fn assign_field(
        &mut self,
        source: &str,
        buf: &Vec<char>,
        klo: usize,
        khi: usize,
        vlo: usize,
        vhi: usize,
    ) -> (r: Result<(), String>)
        requires
            buf@ == source@,
            klo <= khi <= buf@.len(),
            vlo <= vhi <= buf@.len(),
        ensures
            step_matches(
                r,
                field_spec(
                    old(self)@,
                    buf@.subrange(klo as int, khi as int),
                    buf@.subrange(vlo as int, vhi as int),
                ),
                final(self)@,
            ),
    {
        match self.section {
            Section::Root => if range_eq(buf, klo, khi, "version") {
                let v = match parse_u32(buf, vlo, vhi) {
                    Ok(v) => v,
                    Err(e) => return Err(e),
                };
                set_once(&mut self.version, v)
            } else if range_eq(buf, klo, khi, "mode") {
                assign_string(&mut self.mode, source, buf, vlo, vhi)
            } else if range_eq(buf, klo, khi, "strict") {
                assign_bool(&mut self.strict, buf, vlo, vhi)
            } else {
                Ok(())
            },
            Section::Flags => if range_eq(buf, klo, khi, "contract") {
                assign_string(&mut self.contract, source, buf, vlo, vhi)
            } else if range_eq(buf, klo, khi, "require_audit") {
                assign_bool(&mut self.require_audit, buf, vlo, vhi)
            } else if range_eq(buf, klo, khi, "precedence") {
                assign_string(&mut self.precedence, source, buf, vlo, vhi)
            } else {
                Ok(())
            },
            Section::Env => match self.current.take() {
                None => Err(message(".opto-sync.toml is invalid")),
                Some(mut builder) => {
                    let r = builder.assign(source, buf, klo, khi, vlo, vhi);
                    self.current = Some(builder);
                    r
                },
            },
            Section::Other => Ok(()),
        }
    }

    fn apply_line(&mut self, source: &str, buf: &Vec<char>, lo: usize, hi: usize) -> (r: Result<
        (),
        String,
    >)
        requires
            buf@ == source@,
            lo <= hi <= buf@.len(),
        ensures
            step_matches(r, step_spec(old(self)@, buf@.subrange(lo as int, hi as int)), final(self)@),
    {
        let cut = match strip_comment(buf, lo, hi) {
            Ok(cut) => cut,
            Err(e) => return Err(e),
        };
        let (a, b) = trim_range(buf, lo, cut);
        let ghost line = buf@.subrange(a as int, b as int);
        if a == b {
            return Ok(());
        }
        if range_eq(buf, a, b, "[[env]]") {
            return self.enter(Section::Env);
        }
        if range_eq(buf, a, b, "[flags2env]") {
            return self.enter(Section::Flags);
        }
        if buf[a] == '[' && buf[b - 1] == ']' {
            return self.enter(Section::Other);
        }
        let eq = find_char(buf, '=', a, b);
        if eq == b {
            return Err(message(".opto-sync.toml is invalid"));
        }
        let (ka, kb) = trim_range(buf, a, eq);
        let (va, vb) = trim_range(buf, eq + 1, b);
        assert(line.subrange(0, eq - a) =~= buf@.subrange(a as int, eq as int));
        assert(line.subrange(eq - a + 1, line.len() as int) =~= buf@.subrange(eq + 1, b as int));
        self.assign_field(source, buf, ka, kb, va, vb)
    }

    fn finalize(self) -> (r: Result<DomainConfig, String>)
        ensures
            match (r, finalize_spec(self@)) {
                (Ok(a), Ok(b)) => a@ == b,
                (Err(a), Err(b)) => a@ == b,
                _ => false,
            },
    {
        let mut st = self;
        if let Err(e) = st.finish_binding() {
            return Err(e);
        }
        let mode_ok = match &st.mode {
            Some(m) => str_eq(m, "server"),
            None => false,
        };
        if !(st.version == Some(1u32) && mode_ok && st.strict == Some(true)) {
            return Err(message(".opto-sync.toml must be strict version-1 server config"));
        }
        let contract = match st.contract {
            Some(c) => c,
            None => return Err(message(".opto-sync.toml has no flags contract")),
        };
        let precedence_ok = match &st.precedence {
            Some(p) => str_eq(p, "argv-over-env"),
            None => false,
        };
        if !(str_eq(&contract, ".cli-flags.toml") && st.require_audit == Some(true)
            && precedence_ok) {
            return Err(
                message(
                    ".opto-sync.toml must select audited .cli-flags.toml with argv-over-env precedence",
                ),
            );
        }
        if let Err(e) = validate_bindings(&st.bindings) {
            return Err(e);
        }
        Ok(DomainConfig { contract, bindings: st.bindings })
    }
}

/// A parsed and validated domain configuration.
#[derive(Debug, Clone, PartialEq, Eq)]
pub struct DomainConfig {
    contract: String,
    bindings: Vec<DomainBinding>,
}

impl View for DomainConfig {
    type V = DomainConfigModel;

    closed spec fn view(&self) -> DomainConfigModel {
        DomainConfigModel { contract: self.contract@, bindings: bindings_view(self.bindings@) }
    }
}

proof fn lemma_first_index_shift(s: Seq<char>, c: char, lo: int, j: int)
    requires
        0 <= lo <= s.len(),
        0 <= j,
    ensures
        first_index_from(s.subrange(lo, s.len() as int), c, j) + lo == first_index_from(
            s,
            c,
            lo + j,
        ),
    decreases s.len() - lo - j,
{
    if lo + j < s.len() {
        lemma_first_index_shift(s, c, lo, j + 1);
    }
}

proof fn lemma_encode_utf8_len(chars: Seq<char>)
    ensures
        chars.len() <= vstd::utf8::encode_utf8(chars).len(),
    decreases chars.len(),
{
    if chars.len() > 0 {
        lemma_encode_utf8_len(chars.drop_first());
    }
}

fn contains_nul(bytes: &[u8]) -> (b: bool)
    ensures
        b == bytes@.contains(0u8),
{
    let mut k: usize = 0;
    while k < bytes.len()
        invariant
            k <= bytes@.len(),
            forall|i: int| 0 <= i < k ==> bytes@[i] != 0u8,
        decreases bytes@.len() - k,
    {
        if bytes[k] == 0u8 {
            assert(bytes@[k as int] == 0u8);
            return true;
        }
        k = k + 1;
    }
    false
}

impl DomainConfig {
    /// Parses and validates a domain configuration.
    pub fn parse(source: &str) -> (r: Result<DomainConfig, String>)
        ensures
            match (r, parse_spec(source@)) {
                (Ok(a), Ok(b)) => a@ == b,
                (Err(a), Err(b)) => a@ == b,
                _ => false,
            },
    {
        let bytes = source.as_bytes();
        if bytes.len() > MAX_DOMAIN_CONFIG_BYTES || contains_nul(bytes) {
            return Err(message(".opto-sync.toml is invalid"));
        }
        let buf = chars_of(source);
        let ghost s = buf@;
        proof {
            lemma_encode_utf8_len(s);
        }
        let n = buf.len();
        let mut st = ParserState::new();
        let mut pos: usize = 0;
        while pos < n
            invariant
                buf@ == source@,
                s == buf@,
                n == s.len(),
                pos <= n + 1,
                n <= MAX_DOMAIN_CONFIG_BYTES,
                !(vstd::utf8::encode_utf8(s).len() > MAX_DOMAIN_CONFIG_BYTES
                    || vstd::utf8::encode_utf8(s).contains(0u8)),
                process_spec(s, 0, initial_state()) == process_spec(s, pos as int, st@),
            decreases n + 1 - pos,
        {
            let e = find_char(&buf, '\n', pos, n);
            proof {
                lemma_first_index_shift(s, '\n', pos as int, 0);
            }
            let hi = if e < n && e > pos && buf[e - 1] == '\r' {
                e - 1
            } else {
                e
            };
            assert(buf@.subrange(pos as int, hi as int) == line_at(s, pos as int, e as int));
            let ghost before = st@;
            assert(e == first_index_from(s, '\n', pos as int));
            if let Err(err) = st.apply_line(source, &buf, pos, hi) {
                assert(step_spec(before, line_at(s, pos as int, e as int)) == Err::<ParseState, Seq<char>>(err@));
                assert(process_spec(s, pos as int, before) == Err::<ParseState, Seq<char>>(err@));
                return Err(err);
            }
            pos = e + 1;
        }
        st.finalize()
    }
}


// ---------------------------------------------------------------------------
// Applying the configuration to an environment
// ---------------------------------------------------------------------------

/// Applies bindings `i..` to `env`: a binding whose key holds a value that is
/// not blank is left alone; otherwise its default is bound, and a required
/// binding without a default stops the walk with an error. The result is the
/// environment as it stands when the walk ends, and the error if there is one.
pub open spec fn apply_from(
    bs: Seq<BindingModel>,
    i: int,
    env: Map<Seq<char>, Seq<char>>,
) -> (Map<Seq<char>, Seq<char>>, Option<Seq<char>>)
    decreases bs.len() - i,
{
    if i < 0 || i >= bs.len() {
        (env, None)
    } else {
        let b = bs[i];
        if env.contains_key(b.key) && trim(env[b.key]).len() > 0 {
            apply_from(bs, i + 1, env)
        } else {
            match b.default {
                Some(d) => apply_from(bs, i + 1, env.insert(b.key, d)),
                None => if b.required {
                    (env, Some(named_message(".opto-sync.toml required binding ", b.name, " is missing")))
                } else {
                    apply_from(bs, i + 1, env)
                },
            }
        }
    }
}

fn is_present(env: &EnvMap, key: &String) -> (b: bool)
    ensures
        b == (env@.contains_key(key@) && trim(env@[key@]).len() > 0),
{
    match env.get(key.as_str()) {
        None => false,
        Some(v) => {
            let chars = chars_of(v.as_str());
            let (a, b) = trim_range(&chars, 0, chars.len());
            assert(chars@.subrange(0, chars@.len() as int) =~= chars@);
            a < b
        },
    }
}

/// The embedded domain configuration of this server.
pub const DOMAIN_CONFIG_SOURCE: &'static str = "version = 1\nmode = \"server\"\nstrict = true\n\n[flags2env]\ncontract = \".cli-flags.toml\"\nrequire_audit = true\nprecedence = \"argv-over-env\"\n\n[[env]]\nname = \"web_bind\"\nkey = \"OPTO_SYNC_WEB_BIND\"\nkind = \"string\"\nrequired = true\nsecret = false\ndefault = \"127.0.0.1:8081\"\n";

impl DomainConfig {
    /// The audited flag contract file this configuration selects.
    pub fn contract(&self) -> (c: &str)
        ensures
            c@ == self@.contract,
    {
        self.contract.as_str()
    }

    /// The embedded configuration, parsed.
    pub fn embedded() -> (r: Result<DomainConfig, String>)
        ensures
            match (r, parse_spec(DOMAIN_CONFIG_SOURCE@)) {
                (Ok(a), Ok(b)) => a@ == b,
                (Err(a), Err(b)) => a@ == b,
                _ => false,
            },
    {
        Self::parse(DOMAIN_CONFIG_SOURCE)
    }

    /// Binds the default of every binding whose key is unset or blank in `env`;
    /// fails on a required binding that has neither a value nor a default.
    pub fn apply(&self, env: &mut EnvMap) -> (r: Result<(), String>)
        ensures
            final(env)@ == apply_from(self@.bindings, 0, old(env)@).0,
            match r {
                Ok(_) => apply_from(self@.bindings, 0, old(env)@).1 is None,
                Err(e) => apply_from(self@.bindings, 0, old(env)@).1 == Some(e@),
            },
    {
        let ghost bs = self@.bindings;
        let n = self.bindings.len();
        let mut i: usize = 0;
        while i < n
            invariant
                i <= n == self.bindings@.len() == bs.len(),
                bs == self@.bindings,
                apply_from(bs, 0, old(env)@) == apply_from(bs, i as int, env@),
            decreases n - i,
        {
            let binding = &self.bindings[i];
            assert(bs[i as int] == binding@);
            if !is_present(env, &binding.key) {
                match &binding.default {
                    Some(default) => {
                        env.insert(binding.key.clone(), default.clone());
                    },
                    None => {
                        if binding.required {
                            return Err(
                                named(
                                    ".opto-sync.toml required binding ",
                                    binding.name.as_str(),
                                    " is missing",
                                ),
                            );
                        }
                    },
                }
            }
            i = i + 1;
        }
        Ok(())
    }
}

/// What applying the command line gives: the embedded configuration must
/// parse, `config_file_name` must be the flag contract it selects, the parsed
/// flags are laid over `initial`, and the configuration's defaults fill in.
pub open spec fn apply_cli_flags_spec(
    config_file_name: Option<Seq<char>>,
    initial: Map<Seq<char>, Seq<char>>,
    parsed: Result<Map<Seq<char>, Seq<char>>, Seq<char>>,
) -> Result<Map<Seq<char>, Seq<char>>, Seq<char>> {
    match parse_spec(DOMAIN_CONFIG_SOURCE@) {
        Err(e) => Err(e),
        Ok(domain) => if config_file_name != Some(domain.contract) {
            Err(contract_mismatch_message())
        } else {
            match parsed {
                Err(e) => Err(e),
                Ok(flags) => {
                    let (env, err) = apply_from(domain.bindings, 0, initial.union_prefer_right(flags));
                    match err {
                        Some(e) => Err(e),
                        None => Ok(env),
                    }
                },
            }
        },
    }
}

pub open spec fn contract_mismatch_message() -> Seq<char> {
    ".opto-sync.toml flags2env contract does not match the executable contract path"@
}

/// Builds the runtime environment from the inherited environment `initial`
/// and the command-line flags parsed against the contract file whose name is
/// `config_file_name`.
pub fn apply_cli_flags_from(
    config_file_name: Option<&str>,
    initial: EnvMap,
    parsed_flags: Result<EnvMap, String>,
) -> (r: Result<EnvMap, String>)
    ensures
        match (
            r,
            apply_cli_flags_spec(
                match config_file_name {
                    Some(n) => Some(n@),
                    None => None,
                },
                initial@,
                match parsed_flags {
                    Ok(f) => Ok(f@),
                    Err(e) => Err(e@),
                },
            ),
        ) {
            (Ok(a), Ok(b)) => a@ == b,
            (Err(a), Err(b)) => a@ == b,
            _ => false,
        },
{
    let domain = match DomainConfig::embedded() {
        Ok(d) => d,
        Err(e) => return Err(e),
    };
    let matches = match config_file_name {
        Some(name) => str_eq(&domain.contract, name),
        None => false,
    };
    if !matches {
        return Err(
            message(".opto-sync.toml flags2env contract does not match the executable contract path"),
        );
    }
    let flags = match parsed_flags {
        Ok(f) => f,
        Err(e) => return Err(e),
    };
    let mut env = merge_env(initial, flags);
    match domain.apply(&mut env) {
        Ok(_) => Ok(env),
        Err(e) => Err(e),
    }
}

// ---------------------------------------------------------------------------
// The outcome of command-line parsing
// ---------------------------------------------------------------------------

/// The items of `list` separated by `sep`.
pub open spec fn seq_join(list: Seq<Seq<char>>, sep: Seq<char>) -> Seq<char>
    decreases list.len(),
{
    if list.len() == 0 {
        Seq::empty()
    } else if list.len() == 1 {
        list[0]
    } else {
        seq_join(list.drop_last(), sep) + sep + list.last()
    }
}

pub open spec fn strings_view(v: Seq<String>) -> Seq<Seq<char>> {
    v.map_values(|s: String| s@)
}

fn join(list: &Vec<String>, sep: &str) -> (r: String)
    ensures
        r@ == seq_join(strings_view(list@), sep@),
{
    let ghost items = strings_view(list@);
    let mut out = String::new();
    let n = list.len();
    let mut i: usize = 0;
    while i < n
        invariant
            i <= n == list@.len() == items.len(),
            items == strings_view(list@),
            out@ == seq_join(items.take(i as int), sep@),
        decreases n - i,
    {
        assert(items.take(i + 1).drop_last() =~= items.take(i as int));
        assert(items.take(i + 1).last() == list@[i as int]@);
        if i == 0 {
            out.append(list[i].as_str());
            assert(out@ =~= seq_join(items.take(1), sep@));
        } else {
            out.append(sep);
            out.append(list[i].as_str());
        }
        i = i + 1;
    }
    assert(items.take(n as int) =~= items);
    out
}

/// What the command-line parser's findings give: unknown options are refused
/// first, then invalid values; otherwise the parsed flags stand.
pub open spec fn admit_parsed_flags_spec(
    unknown_options: Seq<Seq<char>>,
    errors: Seq<Seq<char>>,
    flags: Map<Seq<char>, Seq<char>>,
) -> Result<Map<Seq<char>, Seq<char>>, Seq<char>> {
    if unknown_options.len() > 0 {
        Err("unknown command-line option(s): "@ + seq_join(unknown_options, ", "@))
    } else if errors.len() > 0 {
        Err("invalid command-line value(s): "@ + seq_join(errors, "; "@))
    } else {
        Ok(flags)
    }
}

/// Admits the flags that the command-line parser found, or refuses the
/// command line for the unknown options or invalid values it reported.
pub fn admit_parsed_flags(unknown_options: Vec<String>, errors: Vec<String>, flags: EnvMap) -> (r:
    Result<EnvMap, String>)
    ensures
        match (
            r,
            admit_parsed_flags_spec(strings_view(unknown_options@), strings_view(errors@), flags@),
        ) {
            (Ok(a), Ok(b)) => a@ == b,
            (Err(a), Err(b)) => a@ == b,
            _ => false,
        },
{
    if unknown_options.len() > 0 {
        let listed = join(&unknown_options, ", ");
        return Err(String::from_str("unknown command-line option(s): ").concat(listed.as_str()));
    }
    if errors.len() > 0 {
        let listed = join(&errors, "; ");
        return Err(String::from_str("invalid command-line value(s): ").concat(listed.as_str()));
    }
    Ok(flags)
}


// ---------------------------------------------------------------------------
// Laws of the domain configuration
// ---------------------------------------------------------------------------

/// Every accepted configuration selects the audited `.cli-flags.toml` contract.
pub proof fn law_parsed_config_selects_audited_contract(s: Seq<char>)
    ensures
        parse_spec(s) matches Ok(d) ==> d.contract == ".cli-flags.toml"@,
{
}

proof fn lemma_no_problem_from(bs: Seq<BindingModel>, i: int)
    requires
        0 <= i,
        bindings_problem(bs, i) is None,
    ensures
        forall|k: int| i <= k < bs.len() ==> #[trigger] binding_problem(bs, k) is None,
    decreases bs.len() - i,
{
    if i < bs.len() {
        lemma_no_problem_from(bs, i + 1);
    }
}

/// Every binding of an accepted configuration has a valid name, environment
/// key and kind, and no two bindings share a name or a key.
pub proof fn law_parsed_bindings_are_valid_and_distinct(s: Seq<char>)
    ensures
        parse_spec(s) matches Ok(d) ==> {
            &&& forall|i: int|
                0 <= i < d.bindings.len() ==> is_valid_name(#[trigger] d.bindings[i].name)
                    && is_valid_env_key(d.bindings[i].key) && is_valid_kind(d.bindings[i].kind)
            &&& forall|i: int, j: int|
                0 <= i < j < d.bindings.len() ==> !aliases(#[trigger] d.bindings[i], #[trigger] d.bindings[j])
        },
{
    if let Ok(d) = parse_spec(s) {
        lemma_no_problem_from(d.bindings, 0);
        assert forall|i: int| 0 <= i < d.bindings.len() implies is_valid_name(
            #[trigger] d.bindings[i].name,
        ) && is_valid_env_key(d.bindings[i].key) && is_valid_kind(d.bindings[i].kind) by {
            assert(binding_problem(d.bindings, i) is None);
        }
        assert forall|i: int, j: int| 0 <= i < j < d.bindings.len() implies !aliases(
            #[trigger] d.bindings[i],
            #[trigger] d.bindings[j],
        ) by {
            assert(binding_problem(d.bindings, j) is None);
        }
    }
}

/// No binding is secret and has a plaintext default.
pub open spec fn no_secret_defaults(bs: Seq<BindingModel>) -> bool {
    forall|i: int| 0 <= i < bs.len() ==> (#[trigger] bs[i]).secret ==> bs[i].default is None
}

proof fn lemma_finish_current_keeps_secrets(st: ParseState)
    requires
        no_secret_defaults(st.bindings),
    ensures
        finish_current_spec(st) matches Ok(f) ==> no_secret_defaults(f.bindings),
{
    if let Ok(f) = finish_current_spec(st) {
        assert forall|i: int| 0 <= i < f.bindings.len() implies (#[trigger] f.bindings[i]).secret
            ==> f.bindings[i].default is None by {
            if i < st.bindings.len() {
                assert(f.bindings[i] == st.bindings[i]);
            }
        }
    }
}

proof fn lemma_step_keeps_secrets(st: ParseState, raw: Seq<char>)
    requires
        no_secret_defaults(st.bindings),
    ensures
        step_spec(st, raw) matches Ok(next) ==> no_secret_defaults(next.bindings),
{
    lemma_finish_current_keeps_secrets(st);
}

proof fn lemma_process_keeps_secrets(s: Seq<char>, i: int, st: ParseState)
    requires
        no_secret_defaults(st.bindings),
    ensures
        process_spec(s, i, st) matches Ok(f) ==> no_secret_defaults(f.bindings),
    decreases s.len() + 1 - i,
{
    if 0 <= i < s.len() {
        lemma_first_index_from_bounds(s, '\n', i);
        let e = first_index_from(s, '\n', i);
        lemma_step_keeps_secrets(st, line_at(s, i, e));
        if let Ok(next) = step_spec(st, line_at(s, i, e)) {
            lemma_process_keeps_secrets(s, e + 1, next);
        }
    }
}

/// No binding of an accepted configuration is secret and has a plaintext
/// default.
pub proof fn law_secret_bindings_have_no_default(s: Seq<char>)
    ensures
        parse_spec(s) matches Ok(d) ==> no_secret_defaults(d.bindings),
{
    lemma_process_keeps_secrets(s, 0, initial_state());
    if let Ok(st) = process_spec(s, 0, initial_state()) {
        lemma_finish_current_keeps_secrets(st);
    }
}

/// Applying bindings never replaces a value that is present and not blank,
/// and never removes a key.
pub proof fn law_apply_keeps_present_values(
    bs: Seq<BindingModel>,
    i: int,
    env: Map<Seq<char>, Seq<char>>,
    k: Seq<char>,
)
    ensures
        env.contains_key(k) ==> apply_from(bs, i, env).0.contains_key(k),
        env.contains_key(k) && trim(env[k]).len() > 0 ==> apply_from(bs, i, env).0[k] == env[k],
    decreases bs.len() - i,
{
    if 0 <= i < bs.len() {
        let b = bs[i];
        if env.contains_key(b.key) && trim(env[b.key]).len() > 0 {
            law_apply_keeps_present_values(bs, i + 1, env, k);
        } else {
            match b.default {
                Some(d) => law_apply_keeps_present_values(bs, i + 1, env.insert(b.key, d), k),
                None => if !b.required {
                    law_apply_keeps_present_values(bs, i + 1, env, k);
                },
            }
        }
    }
}

/// After a successful application, every binding that is required or has a
/// default has its key bound.
pub proof fn law_apply_binds_every_required_or_defaulted_key(
    bs: Seq<BindingModel>,
    i: int,
    env: Map<Seq<char>, Seq<char>>,
)
    requires
        0 <= i,
    ensures
        apply_from(bs, i, env).1 is None ==> forall|j: int|
            i <= j < bs.len() && ((#[trigger] bs[j]).required || bs[j].default is Some)
                ==> apply_from(bs, i, env).0.contains_key(bs[j].key),
    decreases bs.len() - i,
{
    if i < bs.len() {
        let b = bs[i];
        let next_env = if env.contains_key(b.key) && trim(env[b.key]).len() > 0 {
            env
        } else {
            match b.default {
                Some(d) => env.insert(b.key, d),
                None => env,
            }
        };
        law_apply_binds_every_required_or_defaulted_key(bs, i + 1, next_env);
        law_apply_keeps_present_values(bs, i + 1, next_env, b.key);
    }
}

/// Command-line flags take precedence over the inherited environment: a flag
/// with a value that is not blank is what the runtime environment holds, and
/// an inherited value that no flag overrides and that is not blank is kept.
pub proof fn law_argv_over_env(
    config_file_name: Option<Seq<char>>,
    initial: Map<Seq<char>, Seq<char>>,
    flags: Map<Seq<char>, Seq<char>>,
    k: Seq<char>,
)
    ensures
        apply_cli_flags_spec(config_file_name, initial, Ok(flags)) matches Ok(env) ==> {
            &&& (flags.contains_key(k) && trim(flags[k]).len() > 0) ==> env[k] == flags[k]
            &&& (!flags.contains_key(k) && initial.contains_key(k) && trim(initial[k]).len() > 0)
                ==> env[k] == initial[k]
        },
{
    if let Ok(domain) = parse_spec(DOMAIN_CONFIG_SOURCE@) {
        law_apply_keeps_present_values(domain.bindings, 0, initial.union_prefer_right(flags), k);
    }
}

/// The command line is refused on unknown options before invalid values are
/// considered, and the flags are admitted only when the parser reported
/// neither.
pub proof fn law_flags_admitted_only_when_clean(
    unknown_options: Seq<Seq<char>>,
    errors: Seq<Seq<char>>,
    flags: Map<Seq<char>, Seq<char>>,
)
    ensures
        admit_parsed_flags_spec(unknown_options, errors, flags) is Ok <==> (unknown_options.len() == 0
            && errors.len() == 0),
        admit_parsed_flags_spec(unknown_options, errors, flags) matches Ok(f) ==> f == flags,
{
}


/// A binding that applying again leaves alone: its key holds a value that is
/// not blank, or holds its default, or it has no default and is optional.
pub open spec fn settled(b: BindingModel, env: Map<Seq<char>, Seq<char>>) -> bool {
    ||| env.contains_key(b.key) && trim(env[b.key]).len() > 0
    ||| b.default matches Some(d) && env.contains_key(b.key) && env[b.key] == d
    ||| b.default is None && !b.required
}

proof fn lemma_apply_settled(bs: Seq<BindingModel>, i: int, env: Map<Seq<char>, Seq<char>>)
    requires
        0 <= i,
        forall|j: int| i <= j < bs.len() ==> settled(#[trigger] bs[j], env),
    ensures
        apply_from(bs, i, env) == (env, Option::<Seq<char>>::None),
    decreases bs.len() - i,
{
    if i < bs.len() {
        assert(settled(bs[i], env));
        let b = bs[i];
        if !(env.contains_key(b.key) && trim(env[b.key]).len() > 0) {
            if let Some(d) = b.default {
                assert(env.insert(b.key, d) =~= env);
            }
        }
        lemma_apply_settled(bs, i + 1, env);
    }
}

proof fn lemma_apply_other_keys(bs: Seq<BindingModel>, i: int, env: Map<Seq<char>, Seq<char>>, k: Seq<char>)
    requires
        0 <= i,
        forall|j: int| i <= j < bs.len() ==> (#[trigger] bs[j]).key != k,
    ensures
        apply_from(bs, i, env).0.contains_key(k) == env.contains_key(k),
        env.contains_key(k) ==> apply_from(bs, i, env).0[k] == env[k],
    decreases bs.len() - i,
{
    if i < bs.len() {
        let b = bs[i];
        assert(b.key != k);
        if env.contains_key(b.key) && trim(env[b.key]).len() > 0 {
            lemma_apply_other_keys(bs, i + 1, env, k);
        } else {
            match b.default {
                Some(d) => lemma_apply_other_keys(bs, i + 1, env.insert(b.key, d), k),
                None => if !b.required {
                    lemma_apply_other_keys(bs, i + 1, env, k);
                },
            }
        }
    }
}

proof fn lemma_applied_is_settled(bs: Seq<BindingModel>, i: int, env: Map<Seq<char>, Seq<char>>)
    requires
        0 <= i,
        forall|a: int, b: int| 0 <= a < b < bs.len() ==> (#[trigger] bs[a]).key != (#[trigger] bs[b]).key,
        apply_from(bs, i, env).1 is None,
    ensures
        forall|j: int| i <= j < bs.len() ==> settled(#[trigger] bs[j], apply_from(bs, i, env).0),
    decreases bs.len() - i,
{
    if i < bs.len() {
        let b = bs[i];
        let e1 = apply_from(bs, i, env).0;
        assert forall|j: int| i + 1 <= j < bs.len() implies (#[trigger] bs[j]).key != b.key by {
            assert(bs[i].key != bs[j].key);
        }
        if env.contains_key(b.key) && trim(env[b.key]).len() > 0 {
            lemma_applied_is_settled(bs, i + 1, env);
            law_apply_keeps_present_values(bs, i + 1, env, b.key);
        } else {
            match b.default {
                Some(d) => {
                    lemma_applied_is_settled(bs, i + 1, env.insert(b.key, d));
                    lemma_apply_other_keys(bs, i + 1, env.insert(b.key, d), b.key);
                },
                None => {
                    lemma_applied_is_settled(bs, i + 1, env);
                },
            }
        }
        assert(settled(bs[i], e1));
    }
}

/// Applying an accepted configuration a second time changes nothing: once the
/// defaults are in, every binding is settled.
pub proof fn law_apply_is_idempotent(s: Seq<char>, env: Map<Seq<char>, Seq<char>>)
    ensures
        parse_spec(s) matches Ok(d) ==> (apply_from(d.bindings, 0, env).1 is None ==> apply_from(
            d.bindings,
            0,
            apply_from(d.bindings, 0, env).0,
        ) == (apply_from(d.bindings, 0, env).0, Option::<Seq<char>>::None)),
{
    law_parsed_bindings_are_valid_and_distinct(s);
    if let Ok(d) = parse_spec(s) {
        if apply_from(d.bindings, 0, env).1 is None {
            let bs = d.bindings;
            assert forall|a: int, b: int| 0 <= a < b < bs.len() implies (#[trigger] bs[a]).key != (
            #[trigger] bs[b]).key by {
                assert(!aliases(bs[a], bs[b]));
            }
            lemma_applied_is_settled(bs, 0, env);
            lemma_apply_settled(bs, 0, apply_from(bs, 0, env).0);
        }
    }
}


/// A line that holds only white space and perhaps a comment.
pub open spec fn ignorable_line(line: Seq<char>) -> bool {
    strip_comment_spec(line) matches Ok(content) && trim(content).len() == 0
}

/// The line that `t` followed by a line feed reads as: without a carriage
/// return that ends it.
pub open spec fn line_before_feed(t: Seq<char>) -> Seq<char> {
    if t.len() > 0 && t.last() == '\r' {
        t.drop_last()
    } else {
        t
    }
}

proof fn lemma_first_index_same_prefix(x: Seq<char>, s: Seq<char>, c: char, i: int, j: int)
    requires
        s.len() <= x.len(),
        s =~= x.subrange(0, s.len() as int),
        0 <= i <= j < s.len(),
        s[j] == c,
    ensures
        first_index_from(x, c, i) == first_index_from(s, c, i),
        first_index_from(s, c, i) <= j,
    decreases j - i,
{
    assert(x[i] == s[i]);
    if s[i] != c {
        lemma_first_index_same_prefix(x, s, c, i + 1, j);
    }
}

proof fn lemma_first_index_past(x: Seq<char>, c: char, i: int, e: int)
    requires
        0 <= i <= e < x.len(),
        x[e] == c,
        forall|k: int| i <= k < e ==> x[k] != c,
    ensures
        first_index_from(x, c, i) == e,
    decreases e - i,
{
    if i < e {
        lemma_first_index_past(x, c, i + 1, e);
    }
}

proof fn lemma_process_prefix(x: Seq<char>, s: Seq<char>, i: int, st: ParseState)
    requires
        s.len() <= x.len(),
        s =~= x.subrange(0, s.len() as int),
        s.len() == 0 || s.last() == '\n',
        0 <= i <= s.len(),
    ensures
        match process_spec(s, i, st) {
            Err(e) => process_spec(x, i, st) == Err::<ParseState, Seq<char>>(e),
            Ok(f) => process_spec(x, i, st) == process_spec(x, s.len() as int, f),
        },
    decreases s.len() - i,
{
    if i < s.len() {
        lemma_first_index_same_prefix(x, s, '\n', i, s.len() - 1);
        lemma_first_index_from_bounds(s, '\n', i);
        let e = first_index_from(s, '\n', i);
        assert(x.subrange(i, e) =~= s.subrange(i, e));
        assert(line_at(x, i, e) == line_at(s, i, e));
        if let Ok(next) = step_spec(st, line_at(s, i, e)) {
            lemma_process_prefix(x, s, e + 1, next);
        }
    }
}

proof fn lemma_encode_utf8_concat(a: Seq<char>, b: Seq<char>)
    ensures
        vstd::utf8::encode_utf8(a + b) == vstd::utf8::encode_utf8(a) + vstd::utf8::encode_utf8(b),
    decreases a.len(),
{
    if a.len() == 0 {
        assert(a + b =~= b);
        assert(vstd::utf8::encode_utf8(a) + vstd::utf8::encode_utf8(b) =~= vstd::utf8::encode_utf8(b));
    } else {
        assert((a + b).drop_first() =~= a.drop_first() + b);
        lemma_encode_utf8_concat(a.drop_first(), b);
        assert(vstd::utf8::encode_utf8(a + b) =~= vstd::utf8::encode_utf8(a) + vstd::utf8::encode_utf8(b));
    }
}

/// Appending, after the last line, a line that holds only white space and
/// perhaps a comment leaves the parse result unchanged, so long as the longer
/// text stays within the size limit and free of NUL.
pub proof fn law_appending_an_ignorable_line(s: Seq<char>, t: Seq<char>)
    requires
        s.len() == 0 || s.last() == '\n',
        !t.contains('\n'),
        ignorable_line(line_before_feed(t)),
        !(vstd::utf8::encode_utf8(s + t + seq!['\n']).len() > MAX_DOMAIN_CONFIG_BYTES
            || vstd::utf8::encode_utf8(s + t + seq!['\n']).contains(0u8)),
    ensures
        parse_spec(s + t + seq!['\n']) == parse_spec(s),
{
    let x = s + t + seq!['\n'];
    let u = t + seq!['\n'];
    assert(x =~= s + u);
    lemma_encode_utf8_concat(s, u);
    let bx = vstd::utf8::encode_utf8(x);
    let bs = vstd::utf8::encode_utf8(s);
    assert(bs.len() <= bx.len());
    if bs.contains(0u8) {
        let k = choose|k: int| 0 <= k < bs.len() && bs[k] == 0u8;
        assert(bx[k] == 0u8);
    }
    lemma_process_prefix(x, s, 0, initial_state());
    if let Ok(f) = process_spec(s, 0, initial_state()) {
        let e: int = (s.len() + t.len()) as int;
        assert forall|k: int| s.len() <= k < e implies x[k] != '\n' by {
            assert(x[k] == t[k - s.len()]);
        }
        lemma_first_index_past(x, '\n', s.len() as int, e);
        assert(x.subrange(s.len() as int, e) =~= t);
        assert(line_at(x, s.len() as int, e) == line_before_feed(t));
        assert(step_spec(f, line_before_feed(t)) == Ok::<ParseState, Seq<char>>(f));
        assert(process_spec(x, e + 1, f) == Ok::<ParseState, Seq<char>>(f));
    }
}


/// The byte guard of the parser: within the size limit and free of NUL.
pub open spec fn within_byte_guard(s: Seq<char>) -> bool {
    !(vstd::utf8::encode_utf8(s).len() > MAX_DOMAIN_CONFIG_BYTES || vstd::utf8::encode_utf8(
        s,
    ).contains(0u8))
}

proof fn lemma_guard_prefix(a: Seq<char>, b: Seq<char>)
    requires
        within_byte_guard(a + b),
    ensures
        within_byte_guard(a),
{
    lemma_encode_utf8_concat(a, b);
    let ba = vstd::utf8::encode_utf8(a);
    let bx = vstd::utf8::encode_utf8(a + b);
    if ba.contains(0u8) {
        let k = choose|k: int| 0 <= k < ba.len() && ba[k] == 0u8;
        assert(bx[k] == 0u8);
    }
}

proof fn lemma_trim_start_push(x: Seq<char>, w: char)
    requires
        is_white_space(w),
    ensures
        (forall|k: int| 0 <= k < x.len() ==> is_white_space(#[trigger] x[k])) ==> trim_start(
            x.push(w),
        ).len() == 0 && trim_start(x).len() == 0,
        !(forall|k: int| 0 <= k < x.len() ==> is_white_space(#[trigger] x[k])) ==> trim_start(
            x.push(w),
        ) == trim_start(x).push(w),
    decreases x.len(),
{
    if x.len() == 0 {
        assert(x.push(w).drop_first() =~= Seq::<char>::empty());
        assert(trim_start(Seq::<char>::empty()) == Seq::<char>::empty());
    } else if is_white_space(x[0]) {
        assert(x.push(w).drop_first() =~= x.drop_first().push(w));
        lemma_trim_start_push(x.drop_first(), w);
        if forall|k: int| 0 <= k < x.len() ==> is_white_space(#[trigger] x[k]) {
            assert forall|k: int| 0 <= k < x.drop_first().len() implies is_white_space(
                #[trigger] x.drop_first()[k],
            ) by {
                assert(is_white_space(x[k + 1]));
            }
        } else {
            let k = choose|k: int| 0 <= k < x.len() && !is_white_space(#[trigger] x[k]);
            assert(!is_white_space(x.drop_first()[k - 1]));
        }
    } else {
        assert(x.push(w)[0] == x[0]);
    }
}

proof fn lemma_trim_push_white_space(x: Seq<char>, w: char)
    requires
        is_white_space(w),
    ensures
        trim(x.push(w)) == trim(x),
{
    lemma_trim_start_push(x, w);
    if forall|k: int| 0 <= k < x.len() ==> is_white_space(#[trigger] x[k]) {
        assert(trim_start(x.push(w)) =~= Seq::<char>::empty());
        assert(trim_start(x) =~= Seq::<char>::empty());
    } else {
        let y = trim_start(x);
        assert(y.push(w).drop_last() =~= y);
    }
}

proof fn lemma_comment_cut_cr(line: Seq<char>, i: int, quoted: bool)
    requires
        0 <= i <= line.len(),
    ensures
        comment_cut(line.push('\r'), i, quoted) == match comment_cut(line, i, quoted) {
            Ok(cut) => if cut == line.len() {
                Ok::<int, Seq<char>>(line.len() + 1int)
            } else {
                Ok(cut)
            },
            Err(e) => Err(e),
        },
    decreases line.len() - i,
{
    let l = line.push('\r');
    if i < line.len() {
        assert(l[i] == line[i]);
        lemma_comment_cut_cr(line, i + 1, !quoted);
        lemma_comment_cut_cr(line, i + 1, quoted);
        lemma_comment_cut_bounds(line, i + 1, quoted);
        lemma_comment_cut_bounds(line, i + 1, !quoted);
    } else {
        assert(l[i] == '\r');
        assert(comment_cut(l, i + 1, quoted) == if quoted {
            Err::<int, Seq<char>>(unterminated_string_message())
        } else {
            Ok::<int, Seq<char>>(l.len() as int)
        });
        assert(comment_cut(l, i, quoted) == comment_cut(l, i + 1, quoted));
    }
}

proof fn lemma_comment_cut_bounds(s: Seq<char>, i: int, quoted: bool)
    requires
        0 <= i <= s.len(),
    ensures
        comment_cut(s, i, quoted) matches Ok(cut) ==> i <= cut <= s.len(),
    decreases s.len() - i,
{
    if i < s.len() {
        lemma_comment_cut_bounds(s, i + 1, !quoted);
        lemma_comment_cut_bounds(s, i + 1, quoted);
    }
}

/// A carriage return that ends a line changes nothing of how the line reads.
proof fn lemma_step_ignores_final_cr(st: ParseState, line: Seq<char>)
    ensures
        step_spec(st, line.push('\r')) == step_spec(st, line),
{
    let l = line.push('\r');
    lemma_comment_cut_cr(line, 0, false);
    lemma_comment_cut_bounds(line, 0, false);
    if let Ok(cut) = comment_cut(line, 0, false) {
        if cut == line.len() {
            assert(l.take(l.len() as int) =~= line.take(cut).push('\r'));
            lemma_trim_push_white_space(line.take(cut), '\r');
        } else {
            assert(l.take(cut) =~= line.take(cut));
        }
    }
}

proof fn lemma_last_line_start(s: Seq<char>) -> (p: int)
    ensures
        0 <= p <= s.len(),
        p == 0 || s[p - 1] == '\n',
        forall|k: int| p <= k < s.len() ==> s[k] != '\n',
    decreases s.len(),
{
    if s.len() == 0 {
        0
    } else if s.last() == '\n' {
        s.len() as int
    } else {
        let p = lemma_last_line_start(s.drop_last());
        assert forall|k: int| p <= k < s.len() implies s[k] != '\n' by {
            if k < s.len() - 1 {
                assert(s.drop_last()[k] == s[k]);
            }
        }
        if p > 0 {
            assert(s.drop_last()[p - 1] == s[p - 1]);
        }
        p
    }
}

/// A final line feed changes nothing: `s` parses as `s` followed by a line
/// feed does, so long as the longer text stays within the size limit and
/// free of NUL.
pub proof fn law_final_line_feed_changes_nothing(s: Seq<char>)
    requires
        within_byte_guard(s + seq!['\n']),
    ensures
        parse_spec(s + seq!['\n']) == parse_spec(s),
{
    let x = s + seq!['\n'];
    lemma_guard_prefix(s, seq!['\n']);
    let p = lemma_last_line_start(s);
    if p == s.len() {
        let t = Seq::<char>::empty();
        assert(trim_start(t) == t);
        assert(trim_end(t) == t);
        assert(s + t + seq!['\n'] =~= x);
        assert(ignorable_line(line_before_feed(t)));
        law_appending_an_ignorable_line(s, t);
        assert(parse_spec(x) == parse_spec(s));
    } else {
        let s0 = s.take(p);
        let l = s.subrange(p, s.len() as int);
        assert(s0 =~= s.subrange(0, p));
        assert(s0 =~= x.subrange(0, p));
        assert(s0.len() == 0 || s0.last() == '\n');
        lemma_process_prefix(s, s0, 0, initial_state());
        lemma_process_prefix(x, s0, 0, initial_state());
        if let Ok(f) = process_spec(s0, 0, initial_state()) {
            lemma_first_index_from_bounds(s, '\n', p);
            assert(first_index_from(s, '\n', p) == s.len());
            assert(line_at(s, p, s.len() as int) == l);
            assert forall|k: int| p <= k < s.len() implies x[k] != '\n' by {
                assert(x[k] == s[k]);
            }
            lemma_first_index_past(x, '\n', p, s.len() as int);
            assert(x.subrange(p, s.len() as int) =~= l);
            assert(line_at(x, p, s.len() as int) == line_before_feed(l));
            if l.last() == '\r' {
                assert(l =~= l.drop_last().push('\r'));
                lemma_step_ignores_final_cr(f, l.drop_last());
            }
            assert(step_spec(f, line_before_feed(l)) == step_spec(f, l));
            if let Ok(g) = step_spec(f, l) {
                assert(process_spec(s, s.len() + 1int, g) == Ok::<ParseState, Seq<char>>(g));
                assert(process_spec(x, s.len() + 1int, g) == Ok::<ParseState, Seq<char>>(g));
            }
            assert(process_spec(s, p, f) == process_spec(x, p, f));
        }
        assert(process_spec(s, 0, initial_state()) == process_spec(x, 0, initial_state()));
    }
}

/// `s`, a line feed, then each of `lines` followed by a line feed.
pub open spec fn with_lines(s: Seq<char>, lines: Seq<Seq<char>>) -> Seq<char>
    decreases lines.len(),
{
    if lines.len() == 0 {
        s + seq!['\n']
    } else {
        with_lines(s, lines.drop_last()) + lines.last() + seq!['\n']
    }
}

/// Blank and comment-only lines never change the result: ending any text
/// with a line feed and then lines that hold only white space and perhaps a
/// comment leaves the parse result unchanged, so long as the longer text
/// stays within the size limit and free of NUL.
pub proof fn law_ignorable_lines_change_nothing(s: Seq<char>, lines: Seq<Seq<char>>)
    requires
        forall|i: int| 0 <= i < lines.len() ==> !(#[trigger] lines[i]).contains('\n'),
        forall|i: int| 0 <= i < lines.len() ==> ignorable_line(line_before_feed(#[trigger] lines[i])),
        within_byte_guard(with_lines(s, lines)),
    ensures
        parse_spec(with_lines(s, lines)) == parse_spec(s),
    decreases lines.len(),
{
    if lines.len() == 0 {
        law_final_line_feed_changes_nothing(s);
    } else {
        let prev = with_lines(s, lines.drop_last());
        let t = lines.last();
        assert(lines.drop_last().len() < lines.len());
        assert(!lines[lines.len() - 1].contains('\n'));
        assert(ignorable_line(line_before_feed(lines[lines.len() - 1])));
        assert(with_lines(s, lines) =~= prev + (t + seq!['\n']));
        lemma_guard_prefix(prev, t + seq!['\n']);
        assert forall|i: int| 0 <= i < lines.drop_last().len() implies !(
        #[trigger] lines.drop_last()[i]).contains('\n') && ignorable_line(
            line_before_feed(lines.drop_last()[i]),
        ) by {
            assert(lines.drop_last()[i] == lines[i]);
        }
        law_ignorable_lines_change_nothing(s, lines.drop_last());
        assert(prev.last() == '\n');
        assert(with_lines(s, lines) == prev + t + seq!['\n']);
        law_appending_an_ignorable_line(prev, t);
    }
}


// ---------------------------------------------------------------------------
// Laws: what is accepted, stated with explicit characters and literals
// ---------------------------------------------------------------------------

/// 1 to 64 characters from `a`-`z`, `0`-`9` and `_`, the first from `a`-`z`.
pub open spec fn lower_snake(s: Seq<char>) -> bool {
    &&& 1 <= s.len() <= 64
    &&& 'a' <= s[0] <= 'z'
    &&& forall|i: int| 0 <= i < s.len() ==> ('a' <= #[trigger] s[i] <= 'z') || ('0' <= s[i] <= '9') || s[i] == '_'
}

/// 1 to 128 characters from `A`-`Z`, `0`-`9` and `_`, the first from `A`-`Z`
/// or `_`.
pub open spec fn upper_snake(s: Seq<char>) -> bool {
    &&& 1 <= s.len() <= 128
    &&& ('A' <= s[0] <= 'Z' || s[0] == '_')
    &&& forall|i: int| 0 <= i < s.len() ==> ('A' <= #[trigger] s[i] <= 'Z') || ('0' <= s[i] <= '9') || s[i] == '_'
}

/// The six binding kinds.
pub open spec fn known_kind(k: Seq<char>) -> bool {
    k == "string"@ || k == "bool"@ || k == "integer"@ || k == "double"@ || k == "json"@ || k == "url"@
}

/// Bindings with well-formed names, keys and kinds, no two sharing a name or
/// a key.
pub open spec fn acceptable_bindings(bs: Seq<BindingModel>) -> bool {
    &&& forall|i: int|
        0 <= i < bs.len() ==> lower_snake((#[trigger] bs[i]).name) && upper_snake(bs[i].key)
            && known_kind(bs[i].kind)
    &&& forall|i: int, j: int|
        0 <= i < j < bs.len() ==> (#[trigger] bs[i]).name != (#[trigger] bs[j]).name && bs[i].key
            != bs[j].key
}

proof fn lemma_ascii_ranges(c: char)
    ensures
        is_ascii_lower(c) <==> 'a' <= c <= 'z',
        is_ascii_upper(c) <==> 'A' <= c <= 'Z',
        is_ascii_digit(c) <==> '0' <= c <= '9',
{
}

proof fn lemma_problem_free_from(bs: Seq<BindingModel>, i: int)
    requires
        0 <= i <= bs.len(),
    ensures
        bindings_problem(bs, i) is None <==> forall|k: int| i <= k < bs.len() ==> (#[trigger] binding_problem(bs, k)) is None,
    decreases bs.len() - i,
{
    if i < bs.len() {
        lemma_problem_free_from(bs, i + 1);
        if bindings_problem(bs, i) is None {
            assert forall|k: int| i <= k < bs.len() implies (#[trigger] binding_problem(bs, k)) is None by {
                if k > i {
                    assert(binding_problem(bs, k) is None);
                }
            }
        }
    }
}

/// The bindings check accepts exactly the bindings whose names are lower
/// snake case, whose keys are upper snake case (digits allowed), whose kinds
/// are one of string, bool, integer, double, json and url, and of which no two
/// share a name or a key.
pub proof fn law_binding_validation(bs: Seq<BindingModel>)
    ensures
        bindings_problem(bs, 0) is None <==> acceptable_bindings(bs),
{
    lemma_problem_free_from(bs, 0);
    if acceptable_bindings(bs) {
        assert forall|k: int| 0 <= k < bs.len() implies (#[trigger] binding_problem(bs, k)) is None by {
            assert(lower_snake(bs[k].name) && upper_snake(bs[k].key) && known_kind(bs[k].kind));
            assert(is_valid_name(bs[k].name));
            assert(is_valid_env_key(bs[k].key));
            if exists|j: int| 0 <= j < k && aliases(#[trigger] bs[j], bs[k]) {
                let j = choose|j: int| 0 <= j < k && aliases(#[trigger] bs[j], bs[k]);
                assert(bs[j].name != bs[k].name && bs[j].key != bs[k].key);
            }
        }
    }
    if bindings_problem(bs, 0) is None {
        assert forall|i: int| 0 <= i < bs.len() implies lower_snake((#[trigger] bs[i]).name)
            && upper_snake(bs[i].key) && known_kind(bs[i].kind) by {
            assert(binding_problem(bs, i) is None);
            let b = bs[i];
            assert(is_valid_name(b.name) && is_valid_env_key(b.key) && is_valid_kind(b.kind));
            assert forall|k: int| 0 <= k < b.name.len() implies ('a' <= #[trigger] b.name[k] <= 'z')
                || ('0' <= b.name[k] <= '9') || b.name[k] == '_' by {
                lemma_ascii_ranges(b.name[k]);
            }
            assert forall|k: int| 0 <= k < b.key.len() implies ('A' <= #[trigger] b.key[k] <= 'Z')
                || ('0' <= b.key[k] <= '9') || b.key[k] == '_' by {
                lemma_ascii_ranges(b.key[k]);
            }
            assert(lower_snake(b.name));
            assert(upper_snake(b.key));
        }
        assert forall|i: int, j: int| 0 <= i < j < bs.len() implies (#[trigger] bs[i]).name != (
        #[trigger] bs[j]).name && bs[i].key != bs[j].key by {
            assert(binding_problem(bs, j) is None);
            assert(!aliases(bs[i], bs[j]));
        }
    }
}

/// Once every table is closed, the configuration is accepted exactly when it
/// is a strict version-1 server configuration that selects the audited
/// `.cli-flags.toml` contract with argv-over-env precedence and its bindings
/// are acceptable; it then holds exactly the bindings read.
pub proof fn law_final_checks(st: ParseState)
    requires
        st.current is None,
    ensures
        finalize_spec(st) is Ok <==> {
            &&& st.version == Some(1u32)
            &&& st.mode == Some("server"@)
            &&& st.strict == Some(true)
            &&& st.contract == Some(".cli-flags.toml"@)
            &&& st.require_audit == Some(true)
            &&& st.precedence == Some("argv-over-env"@)
            &&& acceptable_bindings(st.bindings)
        },
        finalize_spec(st) matches Ok(d) ==> d.bindings == st.bindings && d.contract
            == ".cli-flags.toml"@,
{
    law_binding_validation(st.bindings);
}


proof fn lemma_comment_cut_skip(s: Seq<char>, i: int, j: int, quoted: bool)
    requires
        0 <= i <= j <= s.len(),
        forall|k: int|
            i <= k < j ==> #[trigger] s[k] != '"' && (quoted ==> s[k] != '\\') && (!quoted ==> s[k]
                != '#'),
    ensures
        comment_cut(s, i, quoted) == comment_cut(s, j, quoted),
    decreases j - i,
{
    if i < j {
        lemma_comment_cut_skip(s, i + 1, j, quoted);
    }
}

proof fn lemma_trim_fixed(s: Seq<char>)
    requires
        s.len() > 0,
        !is_white_space(s[0]),
        !is_white_space(s.last()),
    ensures
        trim(s) == s,
{
    assert(trim_start(s) == s);
    assert(trim_end(s) == s);
}

proof fn lemma_trim_drop_white(w: char, x: Seq<char>)
    requires
        is_white_space(w),
    ensures
        trim(seq![w] + x) == trim(x),
{
    assert((seq![w] + x).drop_first() =~= x);
    assert(trim_start(seq![w] + x) == trim_start(x));
}

/// A table header, `[[env]]`, `[flags2env]` or any other, closes a complete
/// open `[[env]]` table: the table becomes the last binding read, holding
/// exactly the fields written in it.
pub proof fn law_table_header_closes_env_table(st: ParseState, b: BuilderModel, h: Seq<char>)
    requires
        st.current == Some(b),
        b.name is Some,
        b.key is Some,
        b.kind is Some,
        b.required is Some,
        b.secret is Some,
        !(b.secret->0 && b.default is Some),
        h.len() >= 2,
        h[0] == '[',
        h.last() == ']',
        forall|k: int| 0 <= k < h.len() ==> #[trigger] h[k] != '"' && h[k] != '#',
    ensures
        step_spec(st, h) matches Ok(next) && next.bindings == st.bindings.push(
            BindingModel {
                name: b.name->0,
                key: b.key->0,
                kind: b.kind->0,
                required: b.required->0,
                secret: b.secret->0,
                default: b.default,
            },
        ) && next.current == (if h == "[[env]]"@ {
            Some(empty_builder())
        } else {
            None
        }),
{
    lemma_comment_cut_skip(h, 0, h.len() as int, false);
    assert(h.take(h.len() as int) =~= h);
    lemma_trim_fixed(h);
}


proof fn lemma_field_words_distinct()
    ensures
        "name"@ != "key"@,
        "name"@ != "kind"@,
        "name"@ != "required"@,
        "name"@ != "secret"@,
        "name"@ != "default"@,
        "key"@ != "kind"@,
        "key"@ != "required"@,
        "key"@ != "secret"@,
        "key"@ != "default"@,
        "kind"@ != "required"@,
        "kind"@ != "secret"@,
        "kind"@ != "default"@,
        "required"@ != "secret"@,
        "required"@ != "default"@,
        "secret"@ != "default"@,
        "true"@ != "false"@,
{
    reveal_strlit("name");
    reveal_strlit("key");
    reveal_strlit("kind");
    reveal_strlit("required");
    reveal_strlit("secret");
    reveal_strlit("default");
    reveal_strlit("true");
    reveal_strlit("false");
    assert("name"@.len() == 4 && "key"@.len() == 3 && "kind"@.len() == 4);
    assert("required"@.len() == 8 && "secret"@.len() == 6 && "default"@.len() == 7);
    assert("true"@.len() == 4 && "false"@.len() == 5);
    assert("name"@[0] != "kind"@[0]);
}

/// In an `[[env]]` table, `required` and `secret` take the boolean written:
/// `true` gives true and `false` gives false.
pub proof fn law_env_flags_read_as_written(st: ParseState, b: BuilderModel, x: bool)
    requires
        st.section == Section::Env,
        st.current == Some(b),
    ensures
        b.required is None ==> field_spec(st, "required"@, if x { "true"@ } else { "false"@ })
            == Ok::<ParseState, Seq<char>>(
            ParseState { current: Some(BuilderModel { required: Some(x), ..b }), ..st },
        ),
        b.secret is None ==> field_spec(st, "secret"@, if x { "true"@ } else { "false"@ }) == Ok::<
            ParseState,
            Seq<char>,
        >(ParseState { current: Some(BuilderModel { secret: Some(x), ..b }), ..st }),
{
    lemma_field_words_distinct();
}

/// A quoted value holding no quote, no backslash and no control character.
pub open spec fn safe_quoted(v: Seq<char>) -> bool {
    &&& v.len() > 0
    &&& forall|k: int|
        0 <= k < v.len() ==> #[trigger] v[k] != '"' && v[k] != '\\' && !(v[k] as u32 <= 0x1f
            || 0x7f <= v[k] as u32 <= 0x9f)
}

/// In an `[[env]]` table, `name`, `key`, `kind` and `default` take the text
/// between the quotes, whatever it holds, `=` and `#` included.
pub proof fn law_env_strings_read_as_written(st: ParseState, b: BuilderModel, v: Seq<char>)
    requires
        st.section == Section::Env,
        st.current == Some(b),
        safe_quoted(v),
    ensures
        b.name is None ==> field_spec(st, "name"@, seq!['"'] + v + seq!['"']) == Ok::<
            ParseState,
            Seq<char>,
        >(ParseState { current: Some(BuilderModel { name: Some(v), ..b }), ..st }),
        b.key is None ==> field_spec(st, "key"@, seq!['"'] + v + seq!['"']) == Ok::<
            ParseState,
            Seq<char>,
        >(ParseState { current: Some(BuilderModel { key: Some(v), ..b }), ..st }),
        b.kind is None ==> field_spec(st, "kind"@, seq!['"'] + v + seq!['"']) == Ok::<
            ParseState,
            Seq<char>,
        >(ParseState { current: Some(BuilderModel { kind: Some(v), ..b }), ..st }),
        b.default is None ==> field_spec(st, "default"@, seq!['"'] + v + seq!['"']) == Ok::<
            ParseState,
            Seq<char>,
        >(ParseState { current: Some(BuilderModel { default: Some(v), ..b }), ..st }),
{
    lemma_field_words_distinct();
    let q = seq!['"'] + v + seq!['"'];
    assert(q.subrange(1, q.len() - 1) =~= v);
    assert(q[0] == '"' && q.last() == '"');
    assert(parse_string_spec(q) == Ok::<Seq<char>, Seq<char>>(v));
}


/// A key as written before `=`: no white space at its ends, no `=`, quote or
/// `#`, and not the start of a table header.
pub open spec fn plain_key(k: Seq<char>) -> bool {
    &&& k.len() > 0
    &&& !is_white_space(k[0])
    &&& !is_white_space(k.last())
    &&& k[0] != '['
    &&& forall|j: int| 0 <= j < k.len() ==> #[trigger] k[j] != '=' && k[j] != '"' && k[j] != '#'
}

/// A value as written after `=`: no white space at its ends, and either bare
/// (no quote and no `#`) or one quoted string holding no quote and no
/// backslash; `=` may occur in it.
pub open spec fn simple_value(v: Seq<char>) -> bool {
    &&& v.len() > 0
    &&& !is_white_space(v[0])
    &&& !is_white_space(v.last())
    &&& {
        ||| forall|j: int| 0 <= j < v.len() ==> #[trigger] v[j] != '"' && v[j] != '#'
        ||| {
            &&& v.len() >= 2
            &&& v[0] == '"'
            &&& v.last() == '"'
            &&& forall|j: int| 0 < j < v.len() - 1 ==> #[trigger] v[j] != '"' && v[j] != '\\'
        }
    }
}

/// A line `k = v` splits at its first `=`: the field named by the text
/// before it takes the text after it, `=` signs in the value included.
pub proof fn law_key_value_line(st: ParseState, k: Seq<char>, v: Seq<char>)
    requires
        plain_key(k),
        simple_value(v),
    ensures
        step_spec(st, k + seq![' ', '=', ' '] + v) == field_spec(st, k, v),
{
    let line = k + seq![' ', '=', ' '] + v;
    let n = k.len() as int;
    let p = n + 3;
    assert(line[n] == ' ' && line[n + 1] == '=' && line[n + 2] == ' ');
    assert forall|j: int| 0 <= j < n implies #[trigger] line[j] == k[j] by {}
    assert forall|j: int| p <= j < line.len() implies #[trigger] line[j] == v[j - p] by {}
    lemma_comment_cut_skip(line, 0, p, false);
    if forall|j: int| 0 <= j < v.len() ==> #[trigger] v[j] != '"' && v[j] != '#' {
        assert forall|j: int| p <= j < line.len() implies #[trigger] line[j] != '"' && line[j]
            != '#' by {
            assert(v[j - p] != '"' && v[j - p] != '#');
        }
        lemma_comment_cut_skip(line, p, line.len() as int, false);
    } else {
        assert(line[p] == '"');
        assert(line[line.len() - 1] == '"');
        assert forall|j: int| p + 1 <= j < line.len() - 1 implies #[trigger] line[j] != '"'
            && line[j] != '\\' by {
            assert(v[j - p] != '"' && v[j - p] != '\\');
        }
        lemma_comment_cut_skip(line, p + 1, line.len() - 1, true);
        assert(comment_cut(line, line.len() - 1, true) == comment_cut(line, line.len() as int, false));
    }
    assert(comment_cut(line, 0, false) == Ok::<int, Seq<char>>(line.len() as int));
    assert(line.take(line.len() as int) =~= line);
    assert(line.last() == v.last());
    lemma_trim_fixed(line);
    reveal_strlit("[[env]]");
    reveal_strlit("[flags2env]");
    assert(line != "[[env]]"@) by {
        assert("[[env]]"@[0] == '[');
    }
    assert(line != "[flags2env]"@) by {
        assert("[flags2env]"@[0] == '[');
    }
    assert forall|j: int| 0 <= j < n + 1 implies #[trigger] line[j] != '=' by {
        if j < n {
            assert(k[j] != '=');
        }
    }
    lemma_first_index_past(line, '=', 0, n + 1);
    assert(line.subrange(0, n + 1) =~= k.push(' '));
    lemma_trim_push_white_space(k, ' ');
    lemma_trim_fixed(k);
    assert(line.subrange(n + 2, line.len() as int) =~= seq![' '] + v);
    lemma_trim_drop_white(' ', v);
    lemma_trim_fixed(v);
}


proof fn lemma_word_line(word: Seq<char>, value: Seq<char>, line: Seq<char>)
    requires
        line =~= word + seq![' ', '=', ' '] + value,
        word.len() > 0,
        'a' <= word[0] <= 'z',
        forall|j: int| 0 <= j < word.len() ==> 'a' <= #[trigger] word[j] <= 'z',
        value.len() > 0,
        forall|j: int| 0 <= j < value.len() ==> 'a' <= #[trigger] value[j] <= 'z',
    ensures
        forall|st: ParseState| #[trigger] step_spec(st, line) == field_spec(st, word, value),
{
    assert(plain_key(word));
    assert(simple_value(value));
    assert forall|st: ParseState| #[trigger] step_spec(st, line) == field_spec(st, word, value) by {
        law_key_value_line(st, word, value);
    }
}

/// In an `[[env]]` table, the lines `required = true`, `required = false`,
/// `secret = true` and `secret = false` set the flag to the boolean written.
pub proof fn law_flag_lines_read_as_written(st: ParseState, b: BuilderModel)
    requires
        st.section == Section::Env,
        st.current == Some(b),
    ensures
        b.required is None ==> step_spec(st, "required = true"@) == Ok::<ParseState, Seq<char>>(
            ParseState { current: Some(BuilderModel { required: Some(true), ..b }), ..st },
        ),
        b.required is None ==> step_spec(st, "required = false"@) == Ok::<ParseState, Seq<char>>(
            ParseState { current: Some(BuilderModel { required: Some(false), ..b }), ..st },
        ),
        b.secret is None ==> step_spec(st, "secret = true"@) == Ok::<ParseState, Seq<char>>(
            ParseState { current: Some(BuilderModel { secret: Some(true), ..b }), ..st },
        ),
        b.secret is None ==> step_spec(st, "secret = false"@) == Ok::<ParseState, Seq<char>>(
            ParseState { current: Some(BuilderModel { secret: Some(false), ..b }), ..st },
        ),
{
    reveal_strlit("required");
    reveal_strlit("secret");
    reveal_strlit("true");
    reveal_strlit("false");
    reveal_strlit("required = true");
    reveal_strlit("required = false");
    reveal_strlit("secret = true");
    reveal_strlit("secret = false");
    lemma_word_line("required"@, "true"@, "required = true"@);
    lemma_word_line("required"@, "false"@, "required = false"@);
    lemma_word_line("secret"@, "true"@, "secret = true"@);
    lemma_word_line("secret"@, "false"@, "secret = false"@);
    law_env_flags_read_as_written(st, b, true);
    law_env_flags_read_as_written(st, b, false);
}


proof fn lemma_quoted_line(word: Seq<char>, v: Seq<char>, line: Seq<char>)
    requires
        word.len() > 0,
        forall|j: int| 0 <= j < word.len() ==> 'a' <= #[trigger] word[j] <= 'z',
        safe_quoted(v),
        line =~= word + seq![' ', '=', ' ', '"'] + v + seq!['"'],
    ensures
        forall|st: ParseState| #[trigger] step_spec(st, line) == field_spec(
            st,
            word,
            seq!['"'] + v + seq!['"'],
        ),
{
    let q = seq!['"'] + v + seq!['"'];
    assert(plain_key(word));
    assert forall|j: int| 0 < j < q.len() - 1 implies #[trigger] q[j] != '"' && q[j] != '\\' by {
        assert(q[j] == v[j - 1]);
    }
    assert(simple_value(q));
    assert(line =~= word + seq![' ', '=', ' '] + q);
    assert forall|st: ParseState| #[trigger] step_spec(st, line) == field_spec(st, word, q) by {
        law_key_value_line(st, word, q);
    }
}

/// In an `[[env]]` table, a line `name = "v"`, `key = "v"`, `kind = "v"` or
/// `default = "v"` sets that field to `v`, whatever `v` holds, `=` and `#`
/// included.
pub proof fn law_string_lines_read_as_written(st: ParseState, b: BuilderModel, v: Seq<char>)
    requires
        st.section == Section::Env,
        st.current == Some(b),
        safe_quoted(v),
    ensures
        b.name is None ==> step_spec(st, "name"@ + seq![' ', '=', ' ', '"'] + v + seq!['"']) == Ok::<
            ParseState,
            Seq<char>,
        >(ParseState { current: Some(BuilderModel { name: Some(v), ..b }), ..st }),
        b.key is None ==> step_spec(st, "key"@ + seq![' ', '=', ' ', '"'] + v + seq!['"']) == Ok::<
            ParseState,
            Seq<char>,
        >(ParseState { current: Some(BuilderModel { key: Some(v), ..b }), ..st }),
        b.kind is None ==> step_spec(st, "kind"@ + seq![' ', '=', ' ', '"'] + v + seq!['"']) == Ok::<
            ParseState,
            Seq<char>,
        >(ParseState { current: Some(BuilderModel { kind: Some(v), ..b }), ..st }),
        b.default is None ==> step_spec(st, "default"@ + seq![' ', '=', ' ', '"'] + v + seq!['"'])
            == Ok::<ParseState, Seq<char>>(
            ParseState { current: Some(BuilderModel { default: Some(v), ..b }), ..st },
        ),
{
    reveal_strlit("name");
    reveal_strlit("key");
    reveal_strlit("kind");
    reveal_strlit("default");
    lemma_quoted_line("name"@, v, "name"@ + seq![' ', '=', ' ', '"'] + v + seq!['"']);
    lemma_quoted_line("key"@, v, "key"@ + seq![' ', '=', ' ', '"'] + v + seq!['"']);
    lemma_quoted_line("kind"@, v, "kind"@ + seq![' ', '=', ' ', '"'] + v + seq!['"']);
    lemma_quoted_line("default"@, v, "default"@ + seq![' ', '=', ' ', '"'] + v + seq!['"']);
    law_env_strings_read_as_written(st, b, v);
}


/// A text within the byte guard parses exactly when its lines read without
/// error and, once the last table is closed, it is a strict version-1 server
/// configuration selecting the audited `.cli-flags.toml` contract with
/// argv-over-env precedence whose bindings are acceptable (lower snake case
/// names, upper snake case keys, a kind among string, bool, integer, double,
/// json and url, no shared name or key); the result holds those bindings.
pub proof fn law_parse_accepts_exactly(s: Seq<char>)
    requires
        within_byte_guard(s),
    ensures
        parse_spec(s) is Ok <==> (process_spec(s, 0, initial_state()) matches Ok(st)
            && finish_current_spec(st) matches Ok(f) && {
            &&& f.version == Some(1u32)
            &&& f.mode == Some("server"@)
            &&& f.strict == Some(true)
            &&& f.contract == Some(".cli-flags.toml"@)
            &&& f.require_audit == Some(true)
            &&& f.precedence == Some("argv-over-env"@)
            &&& acceptable_bindings(f.bindings)
        }),
        parse_spec(s) matches Ok(d) ==> (process_spec(s, 0, initial_state()) matches Ok(st)
            && finish_current_spec(st) matches Ok(f) && d.bindings == f.bindings && d.contract
            == ".cli-flags.toml"@),
{
    if let Ok(st) = process_spec(s, 0, initial_state()) {
        if let Ok(f) = finish_current_spec(st) {
            assert(f.current is None);
            assert(finish_current_spec(f) == Ok::<ParseState, Seq<char>>(f));
            assert(finalize_spec(st) == finalize_spec(f));
            law_final_checks(f);
        }
    }
}


/// In an `[[env]]` table each field may be written once: writing it again
/// is refused with the duplicate-field error.
pub proof fn law_env_fields_set_once(st: ParseState, b: BuilderModel, x: bool, v: Seq<char>)
    requires
        st.section == Section::Env,
        st.current == Some(b),
        safe_quoted(v),
    ensures
        b.required is Some ==> field_spec(st, "required"@, if x { "true"@ } else { "false"@ })
            == Err::<ParseState, Seq<char>>(duplicate_field_message()),
        b.secret is Some ==> field_spec(st, "secret"@, if x { "true"@ } else { "false"@ }) == Err::<
            ParseState,
            Seq<char>,
        >(duplicate_field_message()),
        b.name is Some ==> field_spec(st, "name"@, seq!['"'] + v + seq!['"']) == Err::<
            ParseState,
            Seq<char>,
        >(duplicate_field_message()),
        b.key is Some ==> field_spec(st, "key"@, seq!['"'] + v + seq!['"']) == Err::<
            ParseState,
            Seq<char>,
        >(duplicate_field_message()),
        b.kind is Some ==> field_spec(st, "kind"@, seq!['"'] + v + seq!['"']) == Err::<
            ParseState,
            Seq<char>,
        >(duplicate_field_message()),
        b.default is Some ==> field_spec(st, "default"@, seq!['"'] + v + seq!['"']) == Err::<
            ParseState,
            Seq<char>,
        >(duplicate_field_message()),
{
    lemma_field_words_distinct();
    let q = seq!['"'] + v + seq!['"'];
    assert(q.subrange(1, q.len() - 1) =~= v);
    assert(parse_string_spec(q) == Ok::<Seq<char>, Seq<char>>(v));
}

/// In an `[[env]]` table, `required` and `secret` accept only the bare words
/// `true` and `false`; any other value is refused as an invalid boolean.
pub proof fn law_env_flags_are_bare_words(st: ParseState, b: BuilderModel, v: Seq<char>)
    requires
        st.section == Section::Env,
        st.current == Some(b),
        v != "true"@,
        v != "false"@,
    ensures
        field_spec(st, "required"@, v) == Err::<ParseState, Seq<char>>(invalid_boolean_message()),
        field_spec(st, "secret"@, v) == Err::<ParseState, Seq<char>>(invalid_boolean_message()),
{
    lemma_field_words_distinct();
}

/// In an `[[env]]` table, a key other than name, key, kind, required, secret
/// and default is ignored.
pub proof fn law_env_unknown_keys_ignored(st: ParseState, b: BuilderModel, k: Seq<char>, v: Seq<char>)
    requires
        st.section == Section::Env,
        st.current == Some(b),
        k != "name"@,
        k != "key"@,
        k != "kind"@,
        k != "required"@,
        k != "secret"@,
        k != "default"@,
    ensures
        field_spec(st, k, v) == Ok::<ParseState, Seq<char>>(st),
{
}

/// A table header that closes an `[[env]]` table lacking its name, key,
/// kind, required flag or secret flag, or a secret one with a default, is
/// refused.
pub proof fn law_incomplete_table_is_refused(st: ParseState, b: BuilderModel, h: Seq<char>)
    requires
        st.current == Some(b),
        b.name is None || b.key is None || b.kind is None || b.required is None || b.secret is None
            || (b.secret == Some(true) && b.default is Some),
        h.len() >= 2,
        h[0] == '[',
        h.last() == ']',
        forall|k: int| 0 <= k < h.len() ==> #[trigger] h[k] != '"' && h[k] != '#',
    ensures
        step_spec(st, h) is Err,
{
    lemma_comment_cut_skip(h, 0, h.len() as int, false);
    assert(h.take(h.len() as int) =~= h);
    lemma_trim_fixed(h);
}


proof fn lemma_top_words_distinct()
    ensures
        "version"@ != "mode"@,
        "version"@ != "strict"@,
        "mode"@ != "strict"@,
        "contract"@ != "require_audit"@,
        "contract"@ != "precedence"@,
        "require_audit"@ != "precedence"@,
        "true"@ != "false"@,
{
    reveal_strlit("version");
    reveal_strlit("mode");
    reveal_strlit("strict");
    reveal_strlit("contract");
    reveal_strlit("require_audit");
    reveal_strlit("precedence");
    reveal_strlit("true");
    reveal_strlit("false");
    assert("version"@.len() == 7 && "mode"@.len() == 4 && "strict"@.len() == 6);
    assert("contract"@.len() == 8 && "require_audit"@.len() == 13 && "precedence"@.len() == 10);
    assert("true"@.len() == 4 && "false"@.len() == 5);
}

/// Before any table, `version` takes the decimal number written, `mode` the
/// quoted text and `strict` the boolean written; each may be given once.
pub proof fn law_root_fields_read_as_written(st: ParseState, d: Seq<char>, v: Seq<char>, x: bool)
    requires
        st.section == Section::Root,
    ensures
        d.len() > 0 && (forall|j: int| 0 <= j < d.len() ==> '0' <= #[trigger] d[j] <= '9')
            && digits_value(d) <= u32::MAX ==> field_spec(st, "version"@, d) == if st.version is None {
            Ok::<ParseState, Seq<char>>(ParseState { version: Some(digits_value(d) as u32), ..st })
        } else {
            Err(duplicate_field_message())
        },
        safe_quoted(v) ==> field_spec(st, "mode"@, seq!['"'] + v + seq!['"']) == if st.mode is None {
            Ok::<ParseState, Seq<char>>(ParseState { mode: Some(v), ..st })
        } else {
            Err(duplicate_field_message())
        },
        field_spec(st, "strict"@, if x { "true"@ } else { "false"@ }) == if st.strict is None {
            Ok::<ParseState, Seq<char>>(ParseState { strict: Some(x), ..st })
        } else {
            Err(duplicate_field_message())
        },
{
    lemma_top_words_distinct();
    if d.len() > 0 && (forall|j: int| 0 <= j < d.len() ==> '0' <= #[trigger] d[j] <= '9') {
        assert(d[0] != '+');
        assert(unsigned_digits(d) == d);
        assert forall|j: int| 0 <= j < d.len() implies is_ascii_digit(#[trigger] d[j]) by {
            lemma_ascii_ranges(d[j]);
        }
    }
    let q = seq!['"'] + v + seq!['"'];
    assert(q.subrange(1, q.len() - 1) =~= v);
    if safe_quoted(v) {
        assert(parse_string_spec(q) == Ok::<Seq<char>, Seq<char>>(v));
    }
}

/// In `[flags2env]`, `contract` and `precedence` take the quoted text and
/// `require_audit` the boolean written; each may be given once.
pub proof fn law_flags_fields_read_as_written(st: ParseState, v: Seq<char>, x: bool)
    requires
        st.section == Section::Flags,
        safe_quoted(v),
    ensures
        field_spec(st, "contract"@, seq!['"'] + v + seq!['"']) == if st.contract is None {
            Ok::<ParseState, Seq<char>>(ParseState { contract: Some(v), ..st })
        } else {
            Err(duplicate_field_message())
        },
        field_spec(st, "precedence"@, seq!['"'] + v + seq!['"']) == if st.precedence is None {
            Ok::<ParseState, Seq<char>>(ParseState { precedence: Some(v), ..st })
        } else {
            Err(duplicate_field_message())
        },
        field_spec(st, "require_audit"@, if x { "true"@ } else { "false"@ }) == if st.require_audit
            is None {
            Ok::<ParseState, Seq<char>>(ParseState { require_audit: Some(x), ..st })
        } else {
            Err(duplicate_field_message())
        },
{
    lemma_top_words_distinct();
    let q = seq!['"'] + v + seq!['"'];
    assert(q.subrange(1, q.len() - 1) =~= v);
    assert(parse_string_spec(q) == Ok::<Seq<char>, Seq<char>>(v));
}


/// In an `[[env]]` table, `name`, `key`, `kind` and `default` take only a
/// quoted string: a value not wrapped in quotes is refused as unquoted, and
/// one whose inside is empty or holds a backslash or a control character
/// (U+0000 to U+001F, U+007F to U+009F) is refused as unsafe.
pub proof fn law_env_strings_checked(st: ParseState, b: BuilderModel, k: Seq<char>, v: Seq<char>)
    requires
        st.section == Section::Env,
        st.current == Some(b),
        k == "name"@ || k == "key"@ || k == "kind"@ || k == "default"@,
    ensures
        !(v.len() >= 2 && v[0] == '"' && v.last() == '"') ==> field_spec(st, k, v) == Err::<
            ParseState,
            Seq<char>,
        >(unquoted_string_message()),
        v.len() >= 2 && v[0] == '"' && v.last() == '"' && (v.len() == 2 || exists|j: int|
            1 <= j < v.len() - 1 && (#[trigger] v[j] == '\\' || v[j] as u32 <= 0x1f || (0x7f
                <= v[j] as u32 <= 0x9f))) ==> field_spec(st, k, v) == Err::<ParseState, Seq<char>>(
            unsafe_string_message(),
        ),
{
    lemma_field_words_distinct();
    if v.len() >= 2 && v[0] == '"' && v.last() == '"' && v.len() > 2 && exists|j: int|
        1 <= j < v.len() - 1 && (#[trigger] v[j] == '\\' || v[j] as u32 <= 0x1f || (0x7f
            <= v[j] as u32 <= 0x9f)) {
        let j = choose|j: int|
            1 <= j < v.len() - 1 && (#[trigger] v[j] == '\\' || v[j] as u32 <= 0x1f || (0x7f
                <= v[j] as u32 <= 0x9f));
        let inner = v.subrange(1, v.len() - 1);
        assert(inner[j - 1] == v[j]);
        assert(is_control(inner[j - 1]) || inner[j - 1] == '\\');
    }
}


/// A required binding without a default whose key holds no value that is
/// not blank.
pub open spec fn missing_required(b: BindingModel, env: Map<Seq<char>, Seq<char>>) -> bool {
    &&& b.required
    &&& b.default is None
    &&& !(env.contains_key(b.key) && trim(env[b.key]).len() > 0)
}

proof fn lemma_apply_missing(
    bs: Seq<BindingModel>,
    i: int,
    env: Map<Seq<char>, Seq<char>>,
    env0: Map<Seq<char>, Seq<char>>,
)
    requires
        0 <= i <= bs.len(),
        forall|a: int, b: int| 0 <= a < b < bs.len() ==> (#[trigger] bs[a]).key != (#[trigger] bs[b]).key,
        forall|j: int|
            i <= j < bs.len() ==> env.contains_key((#[trigger] bs[j]).key) == env0.contains_key(
                bs[j].key,
            ) && (env0.contains_key(bs[j].key) ==> env[bs[j].key] == env0[bs[j].key]),
    ensures
        apply_from(bs, i, env).1 is Some <==> exists|j: int|
            i <= j < bs.len() && missing_required(#[trigger] bs[j], env0),
        apply_from(bs, i, env).1 matches Some(m) ==> exists|j: int|
            i <= j < bs.len() && missing_required(#[trigger] bs[j], env0) && m == named_message(
                ".opto-sync.toml required binding ",
                bs[j].name,
                " is missing",
            ),
    decreases bs.len() - i,
{
    if i < bs.len() {
        let b = bs[i];
        assert(env.contains_key(b.key) == env0.contains_key(b.key));
        let next = if env.contains_key(b.key) && trim(env[b.key]).len() > 0 {
            env
        } else {
            match b.default {
                Some(d) => env.insert(b.key, d),
                None => env,
            }
        };
        assert forall|j: int| i + 1 <= j < bs.len() implies next.contains_key(
            (#[trigger] bs[j]).key,
        ) == env0.contains_key(bs[j].key) && (env0.contains_key(bs[j].key) ==> next[bs[j].key]
            == env0[bs[j].key]) by {
            assert(bs[i].key != bs[j].key);
        }
        lemma_apply_missing(bs, i + 1, next, env0);
        if missing_required(b, env0) {
            assert(apply_from(bs, i, env).1 is Some);
        } else {
            assert(apply_from(bs, i, env) == apply_from(bs, i + 1, next));
            if exists|j: int| i <= j < bs.len() && missing_required(#[trigger] bs[j], env0) {
                let j = choose|j: int| i <= j < bs.len() && missing_required(#[trigger] bs[j], env0);
                assert(j != i);
                assert(i + 1 <= j < bs.len() && missing_required(bs[j], env0));
            }
        }
    }
}

/// Applying bindings with distinct keys fails exactly when some required
/// binding without a default finds its key absent or blank, and the error
/// names such a binding.
pub proof fn law_apply_fails_exactly_on_missing_required(
    bs: Seq<BindingModel>,
    env: Map<Seq<char>, Seq<char>>,
)
    requires
        forall|a: int, b: int| 0 <= a < b < bs.len() ==> (#[trigger] bs[a]).key != (#[trigger] bs[b]).key,
    ensures
        apply_from(bs, 0, env).1 is Some <==> exists|j: int|
            0 <= j < bs.len() && missing_required(#[trigger] bs[j], env),
        apply_from(bs, 0, env).1 matches Some(m) ==> exists|j: int|
            0 <= j < bs.len() && missing_required(#[trigger] bs[j], env) && m == named_message(
                ".opto-sync.toml required binding ",
                bs[j].name,
                " is missing",
            ),
{
    lemma_apply_missing(bs, 0, env, env);
}


/// Applying bindings with distinct keys, when it succeeds, gives each
/// binding that has a default and whose key was absent or blank exactly that
/// default, and leaves every key that no binding names as it was.
pub proof fn law_apply_fills_defaults(
    bs: Seq<BindingModel>,
    i: int,
    env: Map<Seq<char>, Seq<char>>,
    k: Seq<char>,
)
    requires
        0 <= i,
        forall|a: int, b: int| 0 <= a < b < bs.len() ==> (#[trigger] bs[a]).key != (#[trigger] bs[b]).key,
    ensures
        apply_from(bs, i, env).1 is None ==> forall|j: int|
            i <= j < bs.len() && (#[trigger] bs[j]).default is Some && !(env.contains_key(bs[j].key)
                && trim(env[bs[j].key]).len() > 0) ==> apply_from(bs, i, env).0.contains_key(
                bs[j].key,
            ) && apply_from(bs, i, env).0[bs[j].key] == bs[j].default->0,
        (forall|j: int| 0 <= j < bs.len() ==> (#[trigger] bs[j]).key != k) ==> (apply_from(
            bs,
            i,
            env,
        ).0.contains_key(k) == env.contains_key(k) && (env.contains_key(k) ==> apply_from(
            bs,
            i,
            env,
        ).0[k] == env[k])),
    decreases bs.len() - i,
{
    if forall|j: int| 0 <= j < bs.len() ==> (#[trigger] bs[j]).key != k {
        lemma_apply_other_keys(bs, i, env, k);
    }
    if i < bs.len() {
        let b = bs[i];
        let next = if env.contains_key(b.key) && trim(env[b.key]).len() > 0 {
            env
        } else {
            match b.default {
                Some(d) => env.insert(b.key, d),
                None => env,
            }
        };
        law_apply_fills_defaults(bs, i + 1, next, k);
        if apply_from(bs, i, env).1 is None {
            assert(apply_from(bs, i, env) == apply_from(bs, i + 1, next));
            assert forall|j: int| i + 1 <= j < bs.len() implies (#[trigger] bs[j]).key != b.key by {
                assert(bs[i].key != bs[j].key);
            }
            lemma_apply_other_keys(bs, i + 1, next, b.key);
            assert forall|j: int|
                i <= j < bs.len() && (#[trigger] bs[j]).default is Some && !(env.contains_key(
                    bs[j].key,
                ) && trim(env[bs[j].key]).len() > 0) implies apply_from(
                bs,
                i,
                env,
            ).0.contains_key(bs[j].key) && apply_from(bs, i, env).0[bs[j].key]
                == bs[j].default->0 by {
                if j > i {
                    assert(bs[i].key != bs[j].key);
                }
            }
        }
    }
}

} // verus!
