use vstd::prelude::*;
use crate::location::{Location, label, from_label, lemma_label_shape, lemma_from_label_of_label};
use crate::text::{
    is_blank, trim, lines, chars_of, trim_range, range_is, lemma_lines_add_line, lemma_trim_keeps,
};

verus! {

/// Why the settings record could not be read or written.
#[derive(Clone, Copy, Debug, PartialEq, Eq, Structural)]
pub enum INIError {
    LoadError,
    SaveError,
}

/// The user's settings: the chosen location and whether evil mode is on.
#[derive(Clone, Copy, Debug, PartialEq, Eq, Structural)]
pub struct Config {
    pub location: Location,
    pub evil: bool,
}

impl Default for Config {
    /// The settings of a first run: mobile numbers, evil mode off.
    fn default() -> (r: Config)
        ensures
            r == (Config { location: Location::Mobile, evil: false }),
    {
        Config { location: Location::Mobile, evil: false }
    }
}

/// What a line of the settings record says.
pub enum LineKind {
    /// A blank line or a comment (starting with `;` or `#`).
    Skip,
    /// `[name]`: the start of a section.
    Header(Seq<char>),
    /// `key=value`, split at the first `=`.
    Entry(Seq<char>, Seq<char>),
    /// Anything else.
    Malformed,
}

/// `k` is the position of the first `=` in `t`.
pub open spec fn first_eq_at(t: Seq<char>, k: int) -> bool {
    &&& 0 <= k < t.len()
    &&& t[k] == '='
    &&& forall|j: int| 0 <= j < k ==> t[j] != '='
}

/// What the line `line` says, once trimmed.
pub open spec fn classify(line: Seq<char>) -> LineKind {
    let t = trim(line);
    if t.len() == 0 || t[0] == ';' || t[0] == '#' {
        LineKind::Skip
    } else if t[0] == '[' {
        if t.len() >= 2 && t.last() == ']' {
            LineKind::Header(trim(t.subrange(1, t.len() - 1)))
        } else {
            LineKind::Malformed
        }
    } else if exists|k: int| first_eq_at(t, k) {
        let k = choose|k: int| first_eq_at(t, k);
        LineKind::Entry(trim(t.take(k)), trim(t.skip(k + 1)))
    } else {
        LineKind::Malformed
    }
}

/// What has been gathered from the lines read so far: whether the current
/// section is `Settings`, the first `location` and `evil` values found in it,
/// and whether a malformed line was seen.
pub struct Gathered {
    pub in_settings: bool,
    pub location: Option<Seq<char>>,
    pub evil: Option<Seq<char>>,
    pub bad: bool,
}

/// Reading one more line.
pub open spec fn step(g: Gathered, line: Seq<char>) -> Gathered {
    match classify(line) {
        LineKind::Skip => g,
        LineKind::Malformed => Gathered { bad: true, ..g },
        LineKind::Header(name) => Gathered { in_settings: name == "Settings"@, ..g },
        LineKind::Entry(key, value) => {
            if g.in_settings && key == "location"@ && g.location is None {
                Gathered { location: Some(value), ..g }
            } else if g.in_settings && key == "evil"@ && g.evil is None {
                Gathered { evil: Some(value), ..g }
            } else {
                g
            }
        },
    }
}

/// What the lines `ls` give, read in order.
pub open spec fn gather(ls: Seq<Seq<char>>) -> Gathered
    decreases ls.len(),
{
    if ls.len() == 0 {
        Gathered { in_settings: false, location: None, evil: None, bad: false }
    } else {
        step(gather(ls.drop_last()), ls.last())
    }
}

/// The strict boolean tokens.
pub open spec fn bool_of(t: Seq<char>) -> Option<bool> {
    if t == "true"@ {
        Some(true)
    } else if t == "false"@ {
        Some(false)
    } else {
        None
    }
}

/// The token written for a boolean.
pub open spec fn bool_token(b: bool) -> Seq<char> {
    if b {
        "true"@
    } else {
        "false"@
    }
}

/// The settings that the record `text` holds, or why it holds none.
pub open spec fn parse_record(text: Seq<char>) -> Result<Config, INIError> {
    let g = gather(lines(text));
    if g.bad {
        Err(INIError::LoadError)
    } else if let (Some(l), Some(e)) = (g.location, g.evil) {
        if let (Some(location), Some(evil)) = (from_label(l), bool_of(e)) {
            Ok(Config { location, evil })
        } else {
            Err(INIError::LoadError)
        }
    } else {
        Err(INIError::LoadError)
    }
}

/// The record written for `c`.
pub open spec fn record(c: Config) -> Seq<char> {
    "[Settings]\n"@ + "location="@ + label(c.location) + "\n"@ + "evil="@ + bool_token(c.evil) + "\n"@
}

/// A line `key=value` is an entry of that key and value, where the key holds
/// no `=` and neither has blanks at its ends.
proof fn lemma_entry_line(key: Seq<char>, value: Seq<char>)
    requires
        key.len() > 0,
        value.len() > 0,
        !is_blank(key[0]),
        !is_blank(key.last()),
        !is_blank(value[0]),
        !is_blank(value.last()),
        key[0] != ';' && key[0] != '#' && key[0] != '[',
        forall|i: int| 0 <= i < key.len() ==> key[i] != '=',
    ensures
        classify(key.push('=') + value) == LineKind::Entry(key, value),
{
    let t = key.push('=') + value;
    lemma_trim_keeps(t);
    lemma_trim_keeps(key);
    lemma_trim_keeps(value);
    let e = key.len() as int;
    assert(first_eq_at(t, e));
    let c = choose|m: int| first_eq_at(t, m);
    if c < e {
        assert(t[c] == key[c]);
    }
    assert(c == e);
    assert(t.take(e) =~= key);
    assert(t.skip(e + 1) =~= value);
}

/// Loading what was saved gives back the same settings.
pub proof fn lemma_load_after_save(c: Config)
    ensures
        parse_record(record(c)) == Ok::<Config, INIError>(c),
{
    reveal_strlit("[Settings]\n");
    reveal_strlit("[Settings]");
    reveal_strlit("Settings");
    reveal_strlit("location=");
    reveal_strlit("location");
    reveal_strlit("evil=");
    reveal_strlit("evil");
    reveal_strlit("\n");
    reveal_strlit("true");
    reveal_strlit("false");
    let lab = label(c.location);
    let tok = bool_token(c.evil);
    lemma_label_shape(c.location);
    lemma_from_label_of_label(c.location);
    let l1 = "[Settings]"@;
    let l2 = "location"@.push('=') + lab;
    let l3 = "evil"@.push('=') + tok;
    let e = Seq::<char>::empty();
    assert(record(c) =~= ((e + l1.push('\n')) + l2.push('\n')) + l3.push('\n'));
    assert(lines(e) == seq![e]);
    assert forall|i: int| 0 <= i < l2.len() implies l2[i] != '\n' by {
        if i >= 9 {
            assert(l2[i] == lab[i - 9]);
        }
    }
    lemma_lines_add_line(e, l1);
    let s1 = e + l1.push('\n');
    assert(lines(s1) =~= seq![l1, e]);
    lemma_lines_add_line(s1, l2);
    let s2 = s1 + l2.push('\n');
    assert(lines(s2) =~= seq![l1, l2, e]);
    lemma_lines_add_line(s2, l3);
    let ls = seq![l1, l2, l3, e];
    assert(lines(record(c)) =~= ls);
    lemma_trim_keeps(l1);
    assert(l1.subrange(1, 9) =~= "Settings"@);
    lemma_trim_keeps("Settings"@);
    assert(classify(l1) == LineKind::Header("Settings"@));
    lemma_entry_line("location"@, lab);
    lemma_entry_line("evil"@, tok);
    assert(ls.drop_last() =~= seq![l1, l2, l3]);
    assert(seq![l1, l2, l3].drop_last() =~= seq![l1, l2]);
    assert(seq![l1, l2].drop_last() =~= seq![l1]);
    assert(seq![l1].drop_last() =~= Seq::<Seq<char>>::empty());
    assert("evil"@ != "location"@);
    let g0 = gather(Seq::<Seq<char>>::empty());
    assert(!g0.in_settings && g0.location is None && g0.evil is None && !g0.bad);
    assert(gather(seq![l1]) == step(g0, l1));
    let g1 = gather(seq![l1]);
    assert(g1.in_settings && g1.location is None && g1.evil is None && !g1.bad);
    let g2 = gather(seq![l1, l2]);
    assert(g2.in_settings && g2.location == Some(lab) && g2.evil is None && !g2.bad);
    let g3 = gather(seq![l1, l2, l3]);
    assert(g3.location == Some(lab) && g3.evil == Some(tok) && !g3.bad);
    assert(gather(ls) == g3);
}

/// What has been gathered, as bounds into the characters of the record.
struct Scan {
    in_settings: bool,
    location: Option<(usize, usize)>,
    evil: Option<(usize, usize)>,
    bad: bool,
}

/// The text of the part of `v` between the bounds `p`, if any.
spec fn part(v: Seq<char>, p: Option<(usize, usize)>) -> Option<Seq<char>> {
    match p {
        Some(b) => Some(v.subrange(b.0 as int, b.1 as int)),
        None => None,
    }
}

/// The bounds `p`, if any, lie within `v`.
spec fn bounded(v: Seq<char>, p: Option<(usize, usize)>) -> bool {
    p matches Some(b) ==> b.0 <= b.1 <= v.len()
}

impl Scan {
    /// Every bound lies within `v`.
    spec fn wf(&self, v: Seq<char>) -> bool {
        bounded(v, self.location) && bounded(v, self.evil)
    }

    /// What the bounds stand for in `v`.
    spec fn view_in(&self, v: Seq<char>) -> Gathered {
        Gathered {
            in_settings: self.in_settings,
            location: part(v, self.location),
            evil: part(v, self.evil),
            bad: self.bad,
        }
    }
}

/// Reads the line `v[lo..hi]` into `s`.
fn read_line(v: &Vec<char>, lo: usize, hi: usize, s: &mut Scan)
    requires
        lo <= hi <= v@.len(),
        old(s).wf(v@),
    ensures
        final(s).wf(v@),
        final(s).view_in(v@) == step(old(s).view_in(v@), v@.subrange(lo as int, hi as int)),
{
    let ghost line = v@.subrange(lo as int, hi as int);
    let (a, b) = trim_range(v, lo, hi);
    let ghost t = v@.subrange(a as int, b as int);
    if a == b || v[a] == ';' || v[a] == '#' {
        return;
    }
    if v[a] == '[' {
        if b - a >= 2 && v[b - 1] == ']' {
            let (x, y) = trim_range(v, a + 1, b - 1);
            assert(t.subrange(1, t.len() - 1) =~= v@.subrange(a + 1, b - 1));
            s.in_settings = range_is(v, x, y, "Settings");
        } else {
            s.bad = true;
        }
        return;
    }
    let mut k = a;
    while k < b && v[k] != '='
        invariant
            a <= k <= b <= v@.len(),
            t == v@.subrange(a as int, b as int),
            forall|j: int| a <= j < k ==> v@[j] != '=',
        decreases b - k,
    {
        k = k + 1;
    }
    if k == b {
        assert forall|m: int| !first_eq_at(t, m) by {
            if first_eq_at(t, m) {
                assert(v@[a + m] == '=');
            }
        }
        s.bad = true;
        return;
    }
    proof {
        let e = (k - a) as int;
        assert(first_eq_at(t, e));
        let c = choose|m: int| first_eq_at(t, m);
        if c < e {
            assert(v@[a + c] == '=');
        }
        if e < c {
            assert(t[e] == '=');
        }
        assert(c == e);
        assert(t.take(e) =~= v@.subrange(a as int, k as int));
        assert(t.skip(e + 1) =~= v@.subrange(k + 1, b as int));
    }
    let (ka, kb) = trim_range(v, a, k);
    let (va, vb) = trim_range(v, k + 1, b);
    if s.in_settings && s.location.is_none() && range_is(v, ka, kb, "location") {
        s.location = Some((va, vb));
    } else if s.in_settings && s.evil.is_none() && range_is(v, ka, kb, "evil") {
        s.evil = Some((va, vb));
    }
}

/// Reads the settings out of the text of a settings record: the first
/// `location` and `evil` entries of its `Settings` section, which must both
/// be there and hold a label and `true` or `false`. Lines are trimmed of
/// blanks, and keys and values around their `=`; blank lines and comments are
/// skipped; any other line makes the record malformed.
pub fn load(text: &str) -> (r: Result<Config, INIError>)
    ensures
        r == parse_record(text@),
{
    let v = chars_of(text);
    let mut s = Scan { in_settings: false, location: None, evil: None, bad: false };
    let ghost mut done: Seq<Seq<char>> = Seq::empty();
    let mut start: usize = 0;
    let mut i: usize = 0;
    assert(v@.take(0) =~= Seq::<char>::empty());
    assert(v@.subrange(0, 0) =~= Seq::<char>::empty());
    while i < v.len()
        invariant
            v@ == text@,
            start <= i <= v@.len(),
            s.wf(v@),
            s.view_in(v@) == gather(done),
            lines(v@.take(i as int)) == done.push(v@.subrange(start as int, i as int)),
        decreases v@.len() - i,
    {
        assert(v@.take(i + 1).drop_last() =~= v@.take(i as int));
        assert(v@.take(i + 1).last() == v@[i as int]);
        if v[i] == '\n' {
            read_line(&v, start, i, &mut s);
            proof {
                let line = v@.subrange(start as int, i as int);
                assert(done.push(line).drop_last() =~= done);
                done = done.push(line);
                assert(v@.subrange(i + 1, i + 1) =~= Seq::<char>::empty());
            }
            start = i + 1;
        } else {
            assert(v@.subrange(start as int, i + 1) =~= v@.subrange(start as int, i as int).push(v@[i as int]));
            assert(done.push(v@.subrange(start as int, i as int)).update(done.len() as int, v@.subrange(start as int, i + 1)) =~= done.push(v@.subrange(start as int, i + 1)));
        }
        i = i + 1;
    }
    read_line(&v, start, v.len(), &mut s);
    proof {
        let line = v@.subrange(start as int, v@.len() as int);
        assert(v@.take(v@.len() as int) =~= v@);
        assert(done.push(line).drop_last() =~= done);
    }
    if s.bad {
        return Err(INIError::LoadError);
    }
    match (s.location, s.evil) {
        (Some((la, lb)), Some((ea, eb))) => {
            let place = Location::from_str(text.substring_char(la, lb));
            let evil = if range_is(&v, ea, eb, "true") {
                Some(true)
            } else if range_is(&v, ea, eb, "false") {
                Some(false)
            } else {
                None
            };
            match (place, evil) {
                (Ok(location), Some(evil)) => Ok(Config { location, evil }),
                _ => Err(INIError::LoadError),
            }
        },
        _ => Err(INIError::LoadError),
    }
}

/// The text of the settings record for `config`.
pub fn save(config: &Config) -> (r: String)
    ensures
        r@ == record(*config),
{
    let r = String::from_str("[Settings]\n");
    let r = r.concat("location=");
    let r = r.concat(config.location.as_string().as_str());
    let r = r.concat("\n");
    let r = r.concat("evil=");
    let r = r.concat(if config.evil { "true" } else { "false" });
    let r = r.concat("\n");
    r
}

} // verus!
