//! `layout` path templates: a two-token mini-language (literal text
//! and `{field}` / `{field:strftime}` placeholders), parsed once when
//! the config loads so a typo surfaces at startup rather than
//! mid-import.

use vstd::prelude::*;
use crate::clock::{strftime_at_offset, strftime_fixed, strftime_in_zone, timestamp_seconds_in_range, UtcInstant};
use crate::zoned::{is_zone_free, offset_ok, zone_free, zone_offset};
use crate::error::Error;
use crate::text::{chars_of, dec, owned, push_chars, push_dec, push_str, string_of};
use crate::transfer::opt_view;

verus! {

/// What `jiff::fmt::strtime::format(fmt, Timestamp::UNIX_EPOCH)`
/// reports for `fmt`: `None` when it formats, else `jiff`'s error text.
pub uninterp spec fn strftime_probe(fmt: Seq<char>) -> Option<Seq<char>>;

/// Formats the Unix epoch with `fmt` to learn whether `jiff` accepts
/// the strftime spec; the error text is `jiff`'s own.
#[verifier::external_body]
fn strftime_check(fmt: &str) -> (r: Option<String>)
    ensures
        opt_view(r) == strftime_probe(fmt@),
{
    jiff::fmt::strtime::format(fmt, jiff::Timestamp::UNIX_EPOCH).err().map(|e| e.to_string())
}


#[derive(Debug, Clone, PartialEq, Eq)]
pub enum Token {
    Literal(String),
    Field { name: String, strftime: Option<String> },
}

/// The plain-value model of a [`Token`].
pub ghost enum TokenModel {
    Literal(Seq<char>),
    Field(Seq<char>, Option<Seq<char>>),
}

impl View for Token {
    type V = TokenModel;

    open spec fn view(&self) -> TokenModel {
        match self {
            Token::Literal(s) => TokenModel::Literal(s@),
            Token::Field { name, strftime } => TokenModel::Field(name@, opt_view(*strftime)),
        }
    }
}

#[derive(Debug, Clone, PartialEq, Eq)]
pub struct LayoutTemplate {
    tokens: Vec<Token>,
}

/// The models of a run of tokens.
pub open spec fn token_models(t: Seq<Token>) -> Seq<TokenModel> {
    t.map_values(|x: Token| x@)
}

/// The one field name with a meaning of its own: the group's timestamp.
pub open spec fn date_field() -> Seq<char> {
    "date"@
}

/// The format a bare `{date}` uses.
pub open spec fn default_date_format() -> Seq<char> {
    "%Y-%m-%d"@
}

/// The first index at or after `from` holding `c` (`s.len()` if none).
pub open spec fn find_char(s: Seq<char>, from: int, c: char) -> int
    decreases s.len() - from,
{
    if from < 0 || from >= s.len() {
        s.len() as int
    } else if s[from] == c {
        from
    } else {
        find_char(s, from + 1, c)
    }
}

/// Where a literal run starting at `from` ends: the next brace, or the
/// end of the text.
pub open spec fn literal_end(s: Seq<char>, from: int) -> int
    decreases s.len() - from,
{
    if from < 0 || from >= s.len() {
        s.len() as int
    } else if s[from] == '{' || s[from] == '}' {
        from
    } else {
        literal_end(s, from + 1)
    }
}

pub proof fn lemma_find_char_range(s: Seq<char>, from: int, c: char)
    requires
        0 <= from,
    ensures
        from <= find_char(s, from, c) || find_char(s, from, c) == s.len(),
        find_char(s, from, c) <= s.len() || from > s.len(),
        find_char(s, from, c) < s.len() ==> s[find_char(s, from, c)] == c,
        forall|j: int| from <= j < find_char(s, from, c) && j < s.len() ==> s[j] != c,
    decreases s.len() - from,
{
    if from < s.len() && s[from] != c {
        lemma_find_char_range(s, from + 1, c);
    }
}

pub proof fn lemma_literal_end_range(s: Seq<char>, from: int)
    requires
        0 <= from <= s.len(),
    ensures
        from <= literal_end(s, from) <= s.len(),
        literal_end(s, from) < s.len() ==> (s[literal_end(s, from)] == '{' || s[literal_end(s, from)] == '}'),
        forall|j: int| from <= j < literal_end(s, from) ==> s[j] != '{' && s[j] != '}',
    decreases s.len() - from,
{
    if from < s.len() && s[from] != '{' && s[from] != '}' {
        lemma_literal_end_range(s, from + 1);
    }
}

/// A field's name and strftime spec: split at its first `:`.
pub open spec fn split_field(field: Seq<char>) -> (Seq<char>, Option<Seq<char>>) {
    let colon = find_char(field, 0, ':');
    if colon < field.len() {
        (field.subrange(0, colon), Some(field.subrange(colon + 1, field.len() as int)))
    } else {
        (field, None)
    }
}

/// The tokens of `s` from `start` on, or the first error: an unmatched
/// `}`, an unclosed `{`, an empty field name, or a `date` field whose
/// strftime spec `jiff` rejects. Positions count characters.
pub open spec fn parse_tokens(s: Seq<char>, start: int) -> Result<Seq<TokenModel>, Seq<char>>
    decreases s.len() - start,
{
    if start < 0 || start >= s.len() {
        Ok(Seq::empty())
    } else if s[start] == '}' {
        Err("unmatched '}' at position "@ + dec(start as nat))
    } else if s[start] == '{' {
        let close = find_char(s, start + 1, '}');
        if close >= s.len() {
            Err("unclosed '{' at position "@ + dec(start as nat))
        } else {
            let (name, fmt) = split_field(s.subrange(start + 1, close));
            let probe = strftime_probe(match fmt { Some(f) => f, None => default_date_format() });
            if name.len() == 0 {
                Err("empty field name at position "@ + dec(start as nat))
            } else if name == date_field() && probe is Some {
                Err("invalid strftime spec at position "@ + dec(start as nat) + ": "@ + probe->Some_0)
            } else {
                proof {
                    lemma_find_char_range(s, start + 1, '}');
                }
                match parse_tokens(s, close + 1) {
                    Err(m) => Err(m),
                    Ok(rest) => Ok(seq![TokenModel::Field(name, fmt)] + rest),
                }
            }
        }
    } else {
        let end = literal_end(s, start);
        proof {
            lemma_literal_end_range(s, start);
        }
        match parse_tokens(s, end) {
            Err(m) => Err(m),
            Ok(rest) => Ok(seq![TokenModel::Literal(s.subrange(start, end))] + rest),
        }
    }
}

/// `s[from..to]` as a fresh `String`.
fn slice_string(cs: &Vec<char>, from: usize, to: usize) -> (r: String)
    requires
        from <= to <= cs@.len(),
    ensures
        r@ == cs@.subrange(from as int, to as int),
{
    let mut r = String::new();
    let mut i = from;
    while i < to
        invariant
            from <= i <= to <= cs@.len(),
            r@ =~= cs@.subrange(from as int, i as int),
        decreases to - i,
    {
        crate::text::push_char(&mut r, cs[i]);
        i += 1;
    }
    r
}

fn template_error(prefix: &str, pos: usize) -> (e: Error)
    ensures
        e matches Error::Template(m) && m@ == prefix@ + dec(pos as nat),
{
    let mut m = owned(prefix);
    push_dec(&mut m, pos as u128);
    Error::Template(m)
}

impl LayoutTemplate {
    /// The template's tokens.
    pub closed spec fn tokens(self) -> Seq<TokenModel> {
        token_models(self.tokens@)
    }

    /// Parses `input` into tokens, validating brace matching, field
    /// names and (for `{date...}`) the strftime spec eagerly, so an
    /// invalid template fails here rather than while planning.
    pub fn parse(input: &str) -> (r: Result<LayoutTemplate, Error>)
        ensures
            match (r, parse_tokens(input@, 0)) {
                (Ok(t), Ok(m)) => t.tokens() == m,
                (Err(e), Err(m)) => e matches Error::Template(x) && x@ == m,
                _ => false,
            },
    {
        let cs = chars_of(input);
        let n = cs.len();
        let mut tokens: Vec<Token> = Vec::new();
        let mut i: usize = 0;
        while i < n
            invariant
                i <= n == cs@.len(),
                cs@ == input@,
                match parse_tokens(cs@, 0) {
                    Ok(all) => parse_tokens(cs@, i as int) is Ok
                        && all == token_models(tokens@) + parse_tokens(cs@, i as int)->Ok_0,
                    Err(m) => parse_tokens(cs@, i as int) == Err::<Seq<TokenModel>, Seq<char>>(m),
                },
            decreases n - i,
        {
            let ghost s = cs@;
            let ghost before = tokens@;
            if cs[i] == '}' {
                return Err(template_error("unmatched '}' at position ", i));
            } else if cs[i] == '{' {
                let start = i;
                let mut j = i + 1;
                while j < n && cs[j] != '}'
                    invariant
                        start + 1 <= j <= n == cs@.len(),
                        forall|k: int| start + 1 <= k < j ==> cs@[k] != '}',
                    decreases n - j,
                {
                    j += 1;
                }
                proof {
                    lemma_find_char_range(s, start + 1, '}');
                    if find_char(s, start + 1, '}') < j {
                        assert(s[find_char(s, start + 1, '}')] == '}');
                    }
                    if j < n && find_char(s, start + 1, '}') > j {
                        assert(s[j as int] != '}');
                    }
                }
                if j >= n {
                    return Err(template_error("unclosed '{' at position ", start));
                }
                let ghost field = s.subrange(start + 1, j as int);
                let mut c = start + 1;
                while c < j && cs[c] != ':'
                    invariant
                        start + 1 <= c <= j < n == cs@.len(),
                        forall|k: int| start + 1 <= k < c ==> cs@[k] != ':',
                    decreases j - c,
                {
                    c += 1;
                }
                proof {
                    lemma_find_char_range(field, 0, ':');
                    let fc = find_char(field, 0, ':');
                    if fc < c - (start + 1) {
                        assert(field[fc] == cs@[start + 1 + fc]);
                    }
                    if c < j && fc > c - (start + 1) {
                        assert(field[c - (start + 1)] == cs@[c as int]);
                    }
                }
                let name = slice_string(&cs, start + 1, c);
                let strftime = if c < j { Some(slice_string(&cs, c + 1, j)) } else { None };
                assert(name@ =~= split_field(field).0);
                assert(opt_view(strftime) == split_field(field).1) by {
                    if c < j {
                        assert(cs@.subrange(c + 1, j as int) =~= field.subrange(c - start, field.len() as int));
                    }
                }
                if c == start + 1 {
                    return Err(template_error("empty field name at position ", start));
                }
                let is_date = c - start == 5 && cs[start + 1] == 'd' && cs[start + 2] == 'a' && cs[start + 3] == 't'
                    && cs[start + 4] == 'e';
                proof {
                    reveal_strlit("date");
                    if name@ == date_field() {
                        assert(name@[0] == 'd' && name@[1] == 'a' && name@[2] == 't' && name@[3] == 'e');
                        assert(is_date);
                    }
                    if is_date {
                        assert(name@ =~= date_field());
                    }
                }
                if is_date {
                    let fmt = match &strftime {
                        Some(f) => f.clone(),
                        None => owned("%Y-%m-%d"),
                    };
                    if let Some(e) = strftime_check(fmt.as_str()) {
                        let mut m = owned("invalid strftime spec at position ");
                        push_dec(&mut m, start as u128);
                        push_str(&mut m, ": ");
                        push_str(&mut m, e.as_str());
                        return Err(Error::Template(m));
                    }
                }
                tokens.push(Token::Field { name, strftime });
                i = j + 1;
                assert(token_models(tokens@) =~= token_models(before).push(tokens@.last()@));
            } else {
                let start = i;
                let mut j = i;
                while j < n && cs[j] != '{' && cs[j] != '}'
                    invariant
                        start <= j <= n == cs@.len(),
                        forall|k: int| start <= k < j ==> cs@[k] != '{' && cs@[k] != '}',
                    decreases n - j,
                {
                    j += 1;
                }
                proof {
                    lemma_literal_end_range(s, start as int);
                    let le = literal_end(s, start as int);
                    if le < j {
                        assert(s[le] == '{' || s[le] == '}');
                    }
                    if j < n && le > j {
                        assert(s[j as int] != '{' && s[j as int] != '}');
                    }
                }
                let lit = slice_string(&cs, start, j);
                tokens.push(Token::Literal(lit));
                i = j;
                assert(token_models(tokens@) =~= token_models(before).push(tokens@.last()@));
            }
        }
        Ok(LayoutTemplate { tokens })
    }
}

/// The value `ctx` holds for `name`: that of the first pair with that
/// key.
pub open spec fn lookup(ctx: Seq<(String, String)>, name: Seq<char>) -> Option<Seq<char>>
    decreases ctx.len(),
{
    if ctx.len() == 0 {
        None
    } else if ctx[0].0@ == name {
        Some(ctx[0].1@)
    } else {
        lookup(ctx.drop_first(), name)
    }
}

/// How many `date` fields `ts` holds.
pub open spec fn date_count(ts: Seq<TokenModel>) -> nat
    decreases ts.len(),
{
    if ts.len() == 0 {
        0
    } else {
        date_count(ts.drop_last()) + if ts.last() matches TokenModel::Field(n, _) && n == date_field() { 1nat } else { 0nat }
    }
}

/// The path the tokens resolve to when the `k`-th `date` field renders
/// as `dates[k]` and every other field takes its value from `ctx`; the
/// first field `ctx` has no value for is the error.
pub open spec fn resolve_text(ts: Seq<TokenModel>, ctx: Seq<(String, String)>, dates: Seq<Seq<char>>) -> Result<Seq<char>, Seq<char>>
    decreases ts.len(),
{
    if ts.len() == 0 {
        Ok(Seq::empty())
    } else {
        match resolve_text(ts.drop_last(), ctx, dates) {
            Err(m) => Err(m),
            Ok(prefix) => match ts.last() {
                TokenModel::Literal(s) => Ok(prefix + s),
                TokenModel::Field(n, _) => if n == date_field() {
                    Ok(prefix + dates[date_count(ts.drop_last()) as int])
                } else {
                    match lookup(ctx, n) {
                        Some(v) => Ok(prefix + v),
                        None => Err("no value for field '"@ + n + "' in this group"@),
                    }
                },
            },
        }
    }
}

/// The strftime format of each `date` field, in order.
pub open spec fn date_formats_of(ts: Seq<TokenModel>) -> Seq<Seq<char>>
    decreases ts.len(),
{
    if ts.len() == 0 {
        Seq::empty()
    } else {
        date_formats_of(ts.drop_last()) + match ts.last() {
            TokenModel::Field(n, f) => if n == date_field() {
                seq![match f { Some(x) => x, None => default_date_format() }]
            } else {
                Seq::empty()
            },
            _ => Seq::empty(),
        }
    }
}

proof fn lemma_date_formats_len(ts: Seq<TokenModel>)
    ensures
        date_formats_of(ts).len() == date_count(ts),
    decreases ts.len(),
{
    if ts.len() > 0 {
        lemma_date_formats_len(ts.drop_last());
    }
}

fn is_date_name(name: &String) -> (b: bool)
    ensures
        b == (name@ == date_field()),
{
    let cs = chars_of(name.as_str());
    proof {
        reveal_strlit("date");
    }
    let b = cs.len() == 4 && cs[0] == 'd' && cs[1] == 'a' && cs[2] == 't' && cs[3] == 'e';
    proof {
        if b {
            assert(cs@ =~= date_field());
        }
        if name@ == date_field() {
            assert(cs@[0] == 'd' && cs@[1] == 'a' && cs@[2] == 't' && cs@[3] == 'e');
        }
    }
    b
}

fn lookup_in(ctx: &Vec<(String, String)>, name: &String) -> (r: Option<String>)
    ensures
        opt_view(r) == lookup(ctx@, name@),
{
    let mut i: usize = 0;
    assert(ctx@.subrange(0, ctx@.len() as int) =~= ctx@);
    while i < ctx.len()
        invariant
            i <= ctx@.len(),
            lookup(ctx@, name@) == lookup(ctx@.subrange(i as int, ctx@.len() as int), name@),
        decreases ctx@.len() - i,
    {
        let ghost rest = ctx@.subrange(i as int, ctx@.len() as int);
        assert(rest[0] == ctx@[i as int]);
        if crate::text::same_text(ctx[i].0.as_str(), name.as_str()) {
            return Some(ctx[i].1.clone());
        }
        assert(rest.drop_first() =~= ctx@.subrange(i + 1, ctx@.len() as int));
        i += 1;
    }
    None
}

impl LayoutTemplate {
    /// The strftime formats of the template's `date` fields, in order
    /// (the default for a bare `{date}`).
    pub fn date_formats(&self) -> (v: Vec<String>)
        ensures
            v@.map_values(|x: String| x@) == date_formats_of(self.tokens()),
            v@.len() == date_count(self.tokens()),
    {
        let mut v: Vec<String> = Vec::new();
        let mut i: usize = 0;
        while i < self.tokens.len()
            invariant
                i <= self.tokens@.len(),
                v@.map_values(|x: String| x@) == date_formats_of(token_models(self.tokens@.subrange(0, i as int))),
            decreases self.tokens@.len() - i,
        {
            let ghost pre = token_models(self.tokens@.subrange(0, i as int));
            let ghost next = token_models(self.tokens@.subrange(0, i + 1));
            assert(next.drop_last() =~= pre);
            assert(next.last() == self.tokens@[i as int]@);
            let ghost before = v@;
            if let Token::Field { name, strftime } = &self.tokens[i] {
                if is_date_name(name) {
                    let f = match strftime {
                        Some(f) => f.clone(),
                        None => owned("%Y-%m-%d"),
                    };
                    v.push(f);
                    assert(v@.map_values(|x: String| x@) =~= before.map_values(|x: String| x@) + seq![f@]);
                }
            }
            assert(v@.map_values(|x: String| x@) =~= date_formats_of(next));
            i += 1;
        }
        assert(self.tokens@.subrange(0, self.tokens@.len() as int) =~= self.tokens@);
        proof {
            lemma_date_formats_len(self.tokens());
        }
        v
    }

    /// Resolves the template against a group's context, with the `k`-th
    /// `date` field rendered as `dates[k]`.
    pub fn resolve_rendered(&self, context: &Vec<(String, String)>, dates: &Vec<String>) -> (r: Result<String, Error>)
        requires
            dates@.len() == date_count(self.tokens()),
        ensures
            match (r, resolve_text(self.tokens(), context@, dates@.map_values(|x: String| x@))) {
                (Ok(s), Ok(t)) => s@ == t,
                (Err(e), Err(m)) => e matches Error::Template(x) && x@ == m,
                _ => false,
            },
    {
        let ghost ds = dates@.map_values(|x: String| x@);
        let mut out = String::new();
        let mut k: usize = 0;
        let mut i: usize = 0;
        while i < self.tokens.len()
            invariant
                i <= self.tokens@.len(),
                ds == dates@.map_values(|x: String| x@),
                dates.len() == date_count(token_models(self.tokens@)),
                k == date_count(token_models(self.tokens@.subrange(0, i as int))),
                resolve_text(token_models(self.tokens@.subrange(0, i as int)), context@, ds) == Ok::<Seq<char>, Seq<char>>(out@),
            decreases self.tokens@.len() - i,
        {
            let ghost pre = token_models(self.tokens@.subrange(0, i as int));
            let ghost next = token_models(self.tokens@.subrange(0, i + 1));
            assert(next.drop_last() =~= pre);
            assert(next.last() == self.tokens@[i as int]@);
            proof {
                lemma_date_count_prefix(token_models(self.tokens@), i + 1);
                assert(token_models(self.tokens@).subrange(0, i + 1) =~= next);
            }
            match &self.tokens[i] {
                Token::Literal(s) => push_str(&mut out, s.as_str()),
                Token::Field { name, .. } => {
                    if is_date_name(name) {
                        push_str(&mut out, dates[k].as_str());
                        k += 1;
                    } else {
                        match lookup_in(context, name) {
                            Some(v) => push_str(&mut out, v.as_str()),
                            None => {
                                let mut m = owned("no value for field '");
                                push_str(&mut m, name.as_str());
                                push_str(&mut m, "' in this group");
                                proof {
                                    lemma_resolve_err_persists(token_models(self.tokens@), context@, ds, i + 1);
                                    assert(token_models(self.tokens@).subrange(0, i + 1) =~= next);
                                    assert(token_models(self.tokens@.subrange(0, self.tokens@.len() as int)) =~= token_models(self.tokens@));
                                }
                                return Err(Error::Template(m));
                            },
                        }
                    }
                },
            }
            i += 1;
        }
        assert(self.tokens@.subrange(0, self.tokens@.len() as int) =~= self.tokens@);
        Ok(out)
    }

    /// Resolves the template for a group: `date` fields render the
    /// group's instant in `tz`, every other field comes from `context`.
    /// A date format naming neither `%Z` nor `%Q` is `jiff`'s strftime at
    /// the offset the zone applies then; one that names either is
    /// `jiff`'s strftime in the zone itself. A format `jiff` refuses is a
    /// template error with `jiff`'s text.
    pub fn resolve(&self, context: &Vec<(String, String)>, timestamp: UtcInstant, tz: &jiff::tz::TimeZone) -> (r: Result<String, Error>)
        requires
            timestamp_seconds_in_range(timestamp.secs as int),
            0 <= timestamp.nanos < 1_000_000_000,
        ensures
            exists|off: int, d: Seq<Seq<char>>| #[trigger] dates_rendered(self.tokens(), timestamp, off, d) && match r {
                Ok(s) => resolve_text(self.tokens(), context@, d) == Ok::<Seq<char>, Seq<char>>(s@),
                Err(e) => e matches Error::Template(x) && (resolve_text(self.tokens(), context@, d) == Err::<Seq<char>, Seq<char>>(x@)
                    || dates_open(self.tokens(), timestamp, off)),
            },
    {
        let off = zone_offset(timestamp, tz);
        let formats = self.date_formats();
        let ghost ts = self.tokens();
        let ghost fm = date_formats_of(ts);
        let mut dates: Vec<String> = Vec::new();
        let mut i: usize = 0;
        while i < formats.len()
            invariant
                i <= formats@.len(),
                dates@.len() == i,
                formats@.len() == date_count(ts),
                formats@.map_values(|x: String| x@) == fm,
                fm == date_formats_of(ts),
                ts == self.tokens(),
                offset_ok(off as int),
                timestamp_seconds_in_range(timestamp.secs as int),
                0 <= timestamp.nanos < 1_000_000_000,
                forall|k: int| #![trigger fm[k]] 0 <= k < i ==> date_reads(fm[k], timestamp, off as int, dates@[k]@),
            decreases formats@.len() - i,
        {
            assert(formats@[i as int]@ == fm[i as int]);
            let f = formats[i].as_str();
            if is_zone_free(f) {
                match strftime_at_offset(f, timestamp, off) {
                    Ok(x) => dates.push(x),
                    Err(m) => {
                        proof {
                            lemma_date_formats_len(ts);
                            let d = known_dates(ts, timestamp, off as int);
                            assert(dates_rendered(ts, timestamp, off as int, d));
                            assert(dates_open(ts, timestamp, off as int));
                        }
                        return Err(Error::Template(m));
                    },
                }
            } else {
                match strftime_in_zone(f, timestamp, tz) {
                    Ok(x) => dates.push(x),
                    Err(m) => {
                        proof {
                            lemma_date_formats_len(ts);
                            let d = known_dates(ts, timestamp, off as int);
                            assert(dates_rendered(ts, timestamp, off as int, d));
                            assert(dates_open(ts, timestamp, off as int));
                        }
                        return Err(Error::Template(m));
                    },
                }
            }
            i += 1;
        }
        let ghost d = dates@.map_values(|x: String| x@);
        assert(d.len() == date_count(self.tokens()));
        let r = self.resolve_rendered(context, &dates);
        proof {
            assert forall|k: int| #![trigger date_formats_of(ts)[k]] 0 <= k < d.len() implies date_reads(date_formats_of(ts)[k],
                timestamp, off as int, d[k]) by {
                assert(d[k] == dates@[k]@);
                assert(fm[k] == date_formats_of(ts)[k]);
            }
            assert(dates_rendered(ts, timestamp, off as int, d));
        }
        r
    }
}

/// Whether `d` holds a rendering of instant `t` at UTC offset `off` for
/// each `date` field of `ts`: where the field's format is zone-free and
/// `jiff` accepts it, exactly `jiff`'s text at that offset.
pub open spec fn dates_rendered(ts: Seq<TokenModel>, t: UtcInstant, off: int, d: Seq<Seq<char>>) -> bool {
    &&& offset_ok(off)
    &&& d.len() == date_count(ts)
    &&& forall|k: int| #![trigger date_formats_of(ts)[k]] 0 <= k < d.len() ==> date_reads(date_formats_of(ts)[k], t, off, d[k])
}

/// Whether `text` is what a `date` field in format `fmt` shows for
/// instant `t` at offset `off`: `jiff`'s text there, where the format is
/// zone-free and `jiff` accepts it.
pub open spec fn date_reads(fmt: Seq<char>, t: UtcInstant, off: int, text: Seq<char>) -> bool {
    zone_free(fmt) ==> match strftime_fixed(fmt, t.secs as int, t.nanos as int, off) {
        Ok(x) => text == x,
        Err(_) => true,
    }
}

/// Whether some `date` field of `ts` names the zone (its text is then the
/// zone's), or has a format `jiff` refuses at offset `off`.
pub open spec fn dates_open(ts: Seq<TokenModel>, t: UtcInstant, off: int) -> bool {
    exists|k: int| #![trigger date_formats_of(ts)[k]] 0 <= k < date_count(ts) && (!zone_free(date_formats_of(ts)[k])
        || strftime_fixed(date_formats_of(ts)[k], t.secs as int, t.nanos as int, off) is Err)
}

/// `jiff`'s text at offset `off` for each `date` field of `ts` whose
/// format it accepts, empty for the others.
pub open spec fn known_dates(ts: Seq<TokenModel>, t: UtcInstant, off: int) -> Seq<Seq<char>> {
    Seq::new(date_count(ts), |k: int| match strftime_fixed(date_formats_of(ts)[k], t.secs as int, t.nanos as int, off) {
        Ok(x) => x,
        Err(_) => Seq::empty(),
    })
}

proof fn lemma_date_count_prefix(ts: Seq<TokenModel>, i: int)
    requires
        0 <= i <= ts.len(),
    ensures
        date_count(ts.subrange(0, i)) <= date_count(ts),
    decreases ts.len() - i,
{
    if i < ts.len() {
        lemma_date_count_prefix(ts, i + 1);
        assert(ts.subrange(0, i + 1).drop_last() =~= ts.subrange(0, i));
    } else {
        assert(ts.subrange(0, i) =~= ts);
    }
}

proof fn lemma_resolve_err_persists(ts: Seq<TokenModel>, ctx: Seq<(String, String)>, dates: Seq<Seq<char>>, i: int)
    requires
        0 <= i <= ts.len(),
        resolve_text(ts.subrange(0, i), ctx, dates) is Err,
    ensures
        resolve_text(ts, ctx, dates) == resolve_text(ts.subrange(0, i), ctx, dates),
    decreases ts.len() - i,
{
    if i < ts.len() {
        assert(ts.subrange(0, i + 1).drop_last() =~= ts.subrange(0, i));
        lemma_resolve_err_persists(ts, ctx, dates, i + 1);
    } else {
        assert(ts.subrange(0, i) =~= ts);
    }
}

} // verus!
