use vstd::prelude::*;
use crate::config::Config;
use crate::strmap::{map_of, StrMap};
use crate::text::{chars_of, chars_to_string, sub_vec};

verus! {

// ------------------------------------------------------------------
// The text form of a configuration store: three tables, one header line
// each, one entry line per pair. Keys and values are written as quoted
// strings so that any characters round-trip.
// ------------------------------------------------------------------

/// The written form of one character inside a quoted string.
pub open spec fn escape_char(c: char) -> Seq<char> {
    if c == '"' {
        seq!['\\', '"']
    } else if c == '\\' {
        seq!['\\', '\\']
    } else if c == '\n' {
        seq!['\\', 'n']
    } else if c == '\r' {
        seq!['\\', 'r']
    } else if c == '\t' {
        seq!['\\', 't']
    } else {
        seq![c]
    }
}

/// The written form of a string's characters.
pub open spec fn escape(s: Seq<char>) -> Seq<char>
    decreases s.len(),
{
    if s.len() == 0 {
        Seq::empty()
    } else {
        escape_char(s[0]) + escape(s.drop_first())
    }
}

/// One entry line: quoted key, equals sign, quoted value.
pub open spec fn entry_line(k: Seq<char>, v: Seq<char>) -> Seq<char> {
    seq!['"'] + escape(k) + seq!['"', ' ', '=', ' ', '"'] + escape(v) + seq!['"', '\n']
}

/// The entry lines of a table, in storage order.
pub open spec fn entries_text(ps: Seq<(Seq<char>, Seq<char>)>) -> Seq<char>
    decreases ps.len(),
{
    if ps.len() == 0 {
        Seq::empty()
    } else {
        entry_line(ps[0].0, ps[0].1) + entries_text(ps.drop_first())
    }
}

/// One header line naming a table.
pub open spec fn header_line(name: Seq<char>) -> Seq<char> {
    seq!['['] + name + seq![']', '\n']
}

/// The whole text of a configuration store.
pub open spec fn config_text(
    games: Seq<(Seq<char>, Seq<char>)>,
    managers: Seq<(Seq<char>, Seq<char>)>,
    pipes: Seq<(Seq<char>, Seq<char>)>,
) -> Seq<char> {
    header_line("games"@) + entries_text(games) + header_line("managers"@) + entries_text(managers)
        + header_line("pipes"@) + entries_text(pipes)
}

/// Appends the written form of one string's characters.
fn push_escaped(out: &mut Vec<char>, s: &String)
    ensures
        final(out)@ == old(out)@ + escape(s@),
{
    let cs = chars_of(s.as_str());
    let n = cs.len();
    let mut i: usize = 0;
    proof {
        assert(s@.subrange(0, n as int) =~= s@);
    }
    while i < n
        invariant
            i <= n,
            n == s@.len(),
            cs@ == s@,
            out@ + escape(s@.subrange(i as int, n as int)) == old(out)@ + escape(
                s@,
            ),
        decreases n - i,
    {
        proof {
            assert(s@.subrange(i as int, n as int).drop_first() =~= s@.subrange(
                i + 1,
                n as int,
            ));
        }
        let ghost before = out@;
        let c = cs[i];
        if c == '"' {
            out.push('\\');
            out.push('"');
        } else if c == '\\' {
            out.push('\\');
            out.push('\\');
        } else if c == '\n' {
            out.push('\\');
            out.push('n');
        } else if c == '\r' {
            out.push('\\');
            out.push('r');
        } else if c == '\t' {
            out.push('\\');
            out.push('t');
        } else {
            out.push(c);
        }
        proof {
            assert(out@ =~= before + escape_char(s@[i as int]));
        }
        i = i + 1;
    }
    proof {
        assert(s@.subrange(n as int, n as int) =~= Seq::<char>::empty());
    }
}

/// Appends one table's entry lines.
fn push_entries(out: &mut Vec<char>, table: &StrMap)
    ensures
        final(out)@ == old(out)@ + entries_text(table.pairs()),
{
    let n = table.len();
    let mut i: usize = 0;
    proof {
        assert(table.pairs().subrange(0, n as int) =~= table.pairs());
    }
    while i < n
        invariant
            i <= n,
            n == table.pairs().len(),
            out@ + entries_text(table.pairs().subrange(i as int, n as int)) == old(out)@
                + entries_text(table.pairs()),
        decreases n - i,
    {
        proof {
            assert(table.pairs().subrange(i as int, n as int).drop_first() =~= table
                .pairs()
                .subrange(i + 1, n as int));
        }
        let ghost before = out@;
        let (k, v) = table.entry_at(i);
        out.push('"');
        push_escaped(out, &k);
        out.push('"');
        out.push(' ');
        out.push('=');
        out.push(' ');
        out.push('"');
        push_escaped(out, &v);
        out.push('"');
        out.push('\n');
        proof {
            assert(out@ =~= before + entry_line(
                table.pairs()[i as int].0,
                table.pairs()[i as int].1,
            ));
        }
        i = i + 1;
    }
    proof {
        assert(table.pairs().subrange(n as int, n as int) =~= Seq::<(Seq<char>, Seq<char>)>::empty());
    }
}

/// Appends one header line.
fn push_header(out: &mut Vec<char>, name: &str)
    ensures
        final(out)@ == old(out)@ + header_line(name@),
{
    let cs = chars_of(name);
    let n = cs.len();
    out.push('[');
    let ghost mid = out@;
    let mut i: usize = 0;
    while i < n
        invariant
            i <= n,
            n == name@.len(),
            cs@ == name@,
            out@ == mid + name@.take(i as int),
        decreases n - i,
    {
        out.push(cs[i]);
        proof {
            assert(out@ =~= mid + name@.take(i + 1));
        }
        i = i + 1;
    }
    out.push(']');
    out.push('\n');
    proof {
        assert(name@.take(n as int) =~= name@);
        assert(out@ =~= old(out)@ + header_line(name@));
    }
}

/// Serializes a configuration store to its text form.
pub fn write_config_text(config: &Config) -> (r: String)
    ensures
        r@ == config_text(config.games.pairs(), config.managers.pairs(), config.pipes.pairs()),
{
    let mut out: Vec<char> = Vec::new();
    push_header(&mut out, "games");
    push_entries(&mut out, &config.games);
    push_header(&mut out, "managers");
    push_entries(&mut out, &config.managers);
    push_header(&mut out, "pipes");
    push_entries(&mut out, &config.pipes);
    proof {
        assert(out@ =~= config_text(
            config.games.pairs(),
            config.managers.pairs(),
            config.pipes.pairs(),
        ));
    }
    chars_to_string(&out)
}

// ------------------------------------------------------------------
// Reading the text form back.
// ------------------------------------------------------------------

/// The lines of a text, split at the newline characters.
pub open spec fn split_lines(s: Seq<char>) -> Seq<Seq<char>>
    decreases s.len(),
{
    if s.len() == 0 {
        Seq::empty()
    } else if s[0] == '\n' {
        seq![Seq::<char>::empty()] + split_lines(s.drop_first())
    } else {
        let rest = split_lines(s.drop_first());
        if rest.len() == 0 {
            seq![seq![s[0]]]
        } else {
            seq![seq![s[0]] + rest[0]] + rest.drop_first()
        }
    }
}

/// The character an escape stands for, if the escape is known.
pub open spec fn unescape_char(c: char) -> Option<char> {
    if c == '"' {
        Some('"')
    } else if c == '\\' {
        Some('\\')
    } else if c == 'n' {
        Some('\n')
    } else if c == 'r' {
        Some('\r')
    } else if c == 't' {
        Some('\t')
    } else {
        None
    }
}

/// Reads a quoted string's remainder: the characters up to the closing
/// quote, unescaped, and how many characters that took, the closing quote
/// counted. `None` on an unknown escape or a missing closing quote.
pub open spec fn scan_quoted(s: Seq<char>) -> Option<(Seq<char>, int)>
    decreases s.len(),
{
    if s.len() == 0 {
        None
    } else if s[0] == '"' {
        Some((Seq::empty(), 1))
    } else if s[0] == '\\' {
        if s.len() >= 2 {
            match unescape_char(s[1]) {
                Some(c) => match scan_quoted(s.subrange(2, s.len() as int)) {
                    Some(t) => Some((seq![c] + t.0, 2 + t.1)),
                    None => None,
                },
                None => None,
            }
        } else {
            None
        }
    } else {
        match scan_quoted(s.drop_first()) {
            Some(t) => Some((seq![s[0]] + t.0, 1 + t.1)),
            None => None,
        }
    }
}

/// Reads what may follow an entry's key: an equals sign and a quoted
/// value, each after optional blanks, with nothing after the closing
/// quote.
pub open spec fn scan_eq_value(rest: Seq<char>) -> Option<Seq<char>> {
    let i = crate::cmdline::leading_ws(rest);
    if i < rest.len() && rest[i] == '=' {
        let r2 = rest.subrange(i + 1, rest.len() as int);
        let j = crate::cmdline::leading_ws(r2);
        if j < r2.len() && r2[j] == '"' {
            match scan_quoted(r2.subrange(j + 1, r2.len() as int)) {
                Some(t) => if j + 1 + t.1 == r2.len() {
                    Some(t.0)
                } else {
                    None
                },
                None => None,
            }
        } else {
            None
        }
    } else {
        None
    }
}

/// What one line of the text form means.
pub ghost enum LineKind {
    /// Nothing: an empty or blank line, or a comment.
    Blank,
    /// A table header with this name.
    Header(Seq<char>),
    /// One pair of the current table.
    Entry(Seq<char>, Seq<char>),
    /// None of the three: the text is rejected.
    Bad,
}

/// Classifies one line: blank or comment, `[name]` header, or
/// `"key" = "value"` entry.
pub open spec fn parse_line(l: Seq<char>) -> LineKind {
    let i = crate::cmdline::leading_ws(l);
    if i == l.len() {
        LineKind::Blank
    } else if l[i] == '#' {
        LineKind::Blank
    } else if l[i] == '[' {
        if l.len() >= i + 2 && l.last() == ']' {
            LineKind::Header(l.subrange(i + 1, l.len() - 1))
        } else {
            LineKind::Bad
        }
    } else if l[i] == '"' {
        match scan_quoted(l.subrange(i + 1, l.len() as int)) {
            Some(t) => match scan_eq_value(l.subrange(i + 1 + t.1, l.len() as int)) {
                Some(v) => LineKind::Entry(t.0, v),
                None => LineKind::Bad,
            },
            None => LineKind::Bad,
        }
    } else {
        LineKind::Bad
    }
}

/// Which table the entries read so far belong to.
pub enum Section {
    /// Before the first header; an entry here is rejected.
    Preamble,
    Games,
    Managers,
    Pipes,
}

/// The state of the reader between two lines.
pub ghost struct CfgState {
    pub section: Section,
    pub games: Map<Seq<char>, Seq<char>>,
    pub managers: Map<Seq<char>, Seq<char>>,
    pub pipes: Map<Seq<char>, Seq<char>>,
}

/// The reader's state before any line.
pub open spec fn init_cfg_state() -> CfgState {
    CfgState {
        section: Section::Preamble,
        games: Map::empty(),
        managers: Map::empty(),
        pipes: Map::empty(),
    }
}

/// One line applied to the reader's state: a header selects its table, an
/// entry is added to the selected table, anything unreadable rejects the
/// text.
pub open spec fn apply_line(st: CfgState, l: Seq<char>) -> Option<CfgState> {
    match parse_line(l) {
        LineKind::Blank => Some(st),
        LineKind::Header(name) => if name == "games"@ {
            Some(CfgState { section: Section::Games, ..st })
        } else if name == "managers"@ {
            Some(CfgState { section: Section::Managers, ..st })
        } else if name == "pipes"@ {
            Some(CfgState { section: Section::Pipes, ..st })
        } else {
            None
        },
        LineKind::Entry(k, v) => match st.section {
            Section::Preamble => None,
            Section::Games => Some(CfgState { games: st.games.insert(k, v), ..st }),
            Section::Managers => Some(CfgState { managers: st.managers.insert(k, v), ..st }),
            Section::Pipes => Some(CfgState { pipes: st.pipes.insert(k, v), ..st }),
        },
        LineKind::Bad => None,
    }
}

/// The lines applied in order; a rejection is final.
pub open spec fn apply_lines(st: Option<CfgState>, ls: Seq<Seq<char>>) -> Option<CfgState>
    decreases ls.len(),
{
    if ls.len() == 0 {
        st
    } else {
        match st {
            Some(s0) => apply_lines(apply_line(s0, ls[0]), ls.drop_first()),
            None => None,
        }
    }
}

/// What reading a whole text yields.
pub open spec fn parse_config_spec(s: Seq<char>) -> Option<CfgState> {
    apply_lines(Some(init_cfg_state()), split_lines(s))
}

/// A rejection is final, whatever lines follow.
pub proof fn lemma_apply_lines_none(ls: Seq<Seq<char>>)
    ensures
        apply_lines(None, ls) is None,
    decreases ls.len(),
{
    if ls.len() > 0 {
        lemma_apply_lines_none(ls.drop_first());
    }
}

/// The first line of a text whose first newline is at `e`: the text up to
/// `e` is one line, and the lines of what follows the newline are the
/// rest. A text without a newline is a single line.
pub proof fn lemma_split_lines_first(s: Seq<char>, e: int)
    requires
        0 <= e <= s.len(),
        forall|j: int| 0 <= j < e ==> s[j] != '\n',
        e < s.len() ==> s[e] == '\n',
    ensures
        e < s.len() ==> split_lines(s) == seq![s.take(e)] + split_lines(
            s.subrange(e + 1, s.len() as int),
        ),
        e == s.len() && s.len() > 0 ==> split_lines(s) == seq![s],
    decreases s.len(),
{
    if s.len() == 0 {
        return ;
    }
    if s[0] == '\n' {
        assert(e == 0);
        assert(s.take(0) =~= Seq::<char>::empty());
        assert(s.subrange(1, s.len() as int) =~= s.drop_first());
        return ;
    }
    // s[0] != '\n', so e >= 1 or e == 0 == s.len() (impossible here)
    assert(e >= 1);
    let d = s.drop_first();
    assert(forall|j: int| 0 <= j < e - 1 ==> d[j] != '\n');
    lemma_split_lines_first(d, e - 1);
    let rest = split_lines(d);
    if e < s.len() {
        assert(rest == seq![d.take(e - 1)] + split_lines(d.subrange(e, d.len() as int)));
        assert(rest.len() > 0);
        assert(rest[0] == d.take(e - 1));
        assert(seq![s[0]] + rest[0] =~= s.take(e));
        assert(rest.drop_first() =~= split_lines(d.subrange(e, d.len() as int)));
        assert(d.subrange(e - 1, d.len() as int) =~= s.subrange(e, s.len() as int));
        assert(d.subrange(e, d.len() as int) =~= s.subrange(e + 1, s.len() as int));
        assert(split_lines(s) =~= seq![s.take(e)] + split_lines(s.subrange(e + 1, s.len() as int)));
    } else {
        if d.len() == 0 {
            assert(split_lines(s) == seq![seq![s[0]]]);
            assert(seq![s[0]] =~= s);
            assert(split_lines(s) =~= seq![s]);
        } else {
            assert(rest == seq![d]);
            assert(seq![s[0]] + rest[0] =~= s);
            assert(rest.drop_first() =~= Seq::<Seq<char>>::empty());
            assert(split_lines(s) =~= seq![s]);
        }
    }
}

/// The length of the run of blanks from a position.
fn leading_ws_len(cs: &Vec<char>, from: usize) -> (r: usize)
    requires
        from <= cs@.len(),
    ensures
        from <= r <= cs@.len(),
        r - from == crate::cmdline::leading_ws(cs@.subrange(from as int, cs@.len() as int)),
{
    let n = cs.len();
    let mut i = from;
    proof {
        assert(crate::cmdline::leading_ws(cs@.subrange(from as int, n as int)) == (from - from)
            + crate::cmdline::leading_ws(cs@.subrange(from as int, n as int)));
    }
    while i < n && (cs[i] == ' ' || cs[i] == '\t')
        invariant
            from <= i <= n,
            n == cs@.len(),
            crate::cmdline::leading_ws(cs@.subrange(from as int, n as int)) == (i - from)
                + crate::cmdline::leading_ws(cs@.subrange(i as int, n as int)),
        decreases n - i,
    {
        proof {
            assert(cs@.subrange(i as int, n as int).drop_first() =~= cs@.subrange(
                i + 1,
                n as int,
            ));
        }
        i = i + 1;
    }
    proof {
        assert(crate::cmdline::leading_ws(cs@.subrange(i as int, n as int)) == 0);
    }
    i
}

/// Reads a quoted string's remainder starting at `from`, as `scan_quoted`
/// states it; on success the characters read and the position just after
/// the closing quote.
fn scan_quoted_exec(cs: &Vec<char>, from: usize) -> (r: Option<(Vec<char>, usize)>)
    requires
        from <= cs@.len(),
    ensures
        match r {
            Some(t) => from <= t.1 <= cs@.len() && scan_quoted(
                cs@.subrange(from as int, cs@.len() as int),
            ) == Some((t.0@, t.1 - from as int)),
            None => scan_quoted(cs@.subrange(from as int, cs@.len() as int)) is None,
        },
{
    let n = cs.len();
    let mut p = from;
    let mut content: Vec<char> = Vec::new();
    loop
        invariant
            from <= p <= n,
            n == cs@.len(),
            (scan_quoted(cs@.subrange(p as int, n as int)) matches Some(t) ==> scan_quoted(
                cs@.subrange(from as int, n as int),
            ) matches Some(t2) && t2.0 == content@ + t.0 && t2.1 == (p - from) + t.1),
            (scan_quoted(cs@.subrange(p as int, n as int)) is None ==> scan_quoted(
                cs@.subrange(from as int, n as int),
            ) is None),
        decreases n - p,
    {
        if p >= n {
            proof {
                assert(cs@.subrange(p as int, n as int).len() == 0);
            }
            return None;
        }
        let ghost seg = cs@.subrange(p as int, n as int);
        let c = cs[p];
        proof {
            assert(seg[0] == cs@[p as int]);
        }
        if c == '"' {
            proof {
                assert(scan_quoted(seg) == Some((Seq::<char>::empty(), 1int)));
                assert(content@ + Seq::<char>::empty() =~= content@);
            }
            return Some((content, p + 1));
        } else if c == '\\' {
            if p + 1 >= n {
                proof {
                    assert(seg.len() < 2);
                    assert(scan_quoted(seg) is None);
                }
                return None;
            }
            let e = cs[p + 1];
            proof {
                assert(seg[1] == cs@[p + 1]);
                assert(seg.subrange(2, seg.len() as int) =~= cs@.subrange(p + 2, n as int));
            }
            let u: char;
            if e == '"' {
                u = '"';
            } else if e == '\\' {
                u = '\\';
            } else if e == 'n' {
                u = '\n';
            } else if e == 'r' {
                u = '\r';
            } else if e == 't' {
                u = '\t';
            } else {
                proof {
                    assert(unescape_char(seg[1]) is None);
                    assert(scan_quoted(seg) is None);
                }
                return None;
            }
            let ghost before = content@;
            content.push(u);
            proof {
                assert(unescape_char(seg[1]) == Some(u));
                assert(content@ =~= before + seq![u]);
                assert(forall|t0: Seq<char>| (before + seq![u]) + t0 =~= before + (seq![u] + t0));
            }
            p = p + 2;
        } else {
            proof {
                assert(seg.drop_first() =~= cs@.subrange(p + 1, n as int));
            }
            let ghost before = content@;
            content.push(c);
            proof {
                assert(content@ =~= before + seq![cs@[p as int]]);
                assert(forall|t0: Seq<char>| (before + seq![cs@[p as int]]) + t0 =~= before + (
                seq![cs@[p as int]] + t0));
            }
            p = p + 1;
        }
    }
}

/// Reads an entry's equals sign and quoted value starting at `from`, as
/// `scan_eq_value` states it.
fn scan_eq_value_exec(cs: &Vec<char>, from: usize) -> (r: Option<Vec<char>>)
    requires
        from <= cs@.len(),
    ensures
        match r {
            Some(v) => scan_eq_value(cs@.subrange(from as int, cs@.len() as int)) == Some(v@),
            None => scan_eq_value(cs@.subrange(from as int, cs@.len() as int)) is None,
        },
{
    let n = cs.len();
    let ghost rest = cs@.subrange(from as int, n as int);
    let i = leading_ws_len(cs, from);
    proof {
        assert(crate::cmdline::leading_ws(rest) == i - from);
    }
    if i >= n || !(cs[i] == '=') {
        proof {
            if i - from < rest.len() {
                assert(rest[i - from] == cs@[i as int]);
            }
        }
        return None;
    }
    proof {
        assert(rest[i - from] == cs@[i as int]);
        assert(rest.subrange(i - from + 1, rest.len() as int) =~= cs@.subrange(i + 1, n as int));
    }
    let ghost r2 = cs@.subrange(i + 1, n as int);
    let j = leading_ws_len(cs, i + 1);
    proof {
        assert(crate::cmdline::leading_ws(r2) == j - (i + 1));
    }
    if j >= n || !(cs[j] == '"') {
        proof {
            if j - (i + 1) < r2.len() {
                assert(r2[j - (i + 1)] == cs@[j as int]);
            }
        }
        return None;
    }
    proof {
        assert(r2[j - (i + 1)] == cs@[j as int]);
        assert(r2.subrange(j - (i + 1) + 1, r2.len() as int) =~= cs@.subrange(j + 1, n as int));
    }
    match scan_quoted_exec(cs, j + 1) {
        Some((v, end)) => {
            if end == n {
                proof {
                    assert((j - (i + 1)) + 1 + (end - (j + 1)) == r2.len());
                }
                Some(v)
            } else {
                proof {
                    assert((j - (i + 1)) + 1 + (end - (j + 1)) != r2.len());
                }
                None
            }
        },
        None => None,
    }
}

/// Applies one line to the configuration being read, as `apply_line`
/// states it; `false` rejects the text.
fn apply_line_exec(cfg: &mut Config, section: &mut Section, line: &Vec<char>) -> (ok: bool)
    ensures
        ({
            let st = CfgState {
                section: *old(section),
                games: old(cfg).games@,
                managers: old(cfg).managers@,
                pipes: old(cfg).pipes@,
            };
            match apply_line(st, line@) {
                Some(st2) => ok && *final(section) == st2.section && final(cfg).games@
                    == st2.games && final(cfg).managers@ == st2.managers && final(cfg).pipes@
                    == st2.pipes,
                None => !ok,
            }
        }),
{
    let n = line.len();
    let ghost lv = line@;
    proof {
        assert(lv.subrange(0, n as int) =~= lv);
    }
    let i = leading_ws_len(line, 0);
    proof {
        assert(crate::cmdline::leading_ws(lv) == i as int);
    }
    if i == n {
        return true;
    }
    proof {
        assert(lv[i as int] == line@[i as int]);
    }
    let c = line[i];
    if c == '#' {
        return true;
    }
    if c == '[' {
        if n - i >= 2 && line[n - 1] == ']' {
            let name = sub_vec(line, i + 1, n - 1);
            let name_s = chars_to_string(&name);
            if name_s == String::from_str("games") {
                *section = Section::Games;
                return true;
            }
            if name_s == String::from_str("managers") {
                *section = Section::Managers;
                return true;
            }
            if name_s == String::from_str("pipes") {
                *section = Section::Pipes;
                return true;
            }
            return false;
        }
        return false;
    }
    if c == '"' {
        match scan_quoted_exec(line, i + 1) {
            Some((k, next)) => {
                proof {
                    assert(lv.subrange(i + 1, n as int) =~= line@.subrange(i + 1, n as int));
                }
                match scan_eq_value_exec(line, next) {
                    Some(v) => {
                        proof {
                            assert(lv.subrange(
                                i + 1 + (next - (i + 1)),
                                n as int,
                            ) =~= line@.subrange(next as int, n as int));
                        }
                        let ks = chars_to_string(&k);
                        let vs = chars_to_string(&v);
                        match *section {
                            Section::Preamble => false,
                            Section::Games => {
                                cfg.games.insert(ks, vs);
                                true
                            },
                            Section::Managers => {
                                cfg.managers.insert(ks, vs);
                                true
                            },
                            Section::Pipes => {
                                cfg.pipes.insert(ks, vs);
                                true
                            },
                        }
                    },
                    None => false,
                }
            },
            None => false,
        }
    } else {
        false
    }
}

/// Reads a configuration store from its text form: three tables selected
/// by their header lines, one pair per entry line, blank and comment lines
/// passed over. `None` exactly where the text does not follow that form.
pub fn parse_config_text(text: &str) -> (r: Option<Config>)
    ensures
        match r {
            Some(c) => parse_config_spec(text@) matches Some(st) && c.games@ == st.games
                && c.managers@ == st.managers && c.pipes@ == st.pipes,
            None => parse_config_spec(text@) is None,
        },
{
    let cs = chars_of(text);
    let n = cs.len();
    let mut cfg = Config::empty();
    let mut section = Section::Preamble;
    let mut pos: usize = 0;
    proof {
        assert(cs@.subrange(0, n as int) =~= text@);
    }
    while pos < n
        invariant
            pos <= n,
            n == text@.len(),
            cs@ == text@,
            apply_lines(Some(init_cfg_state()), split_lines(text@)) == apply_lines(
                Some(
                    CfgState {
                        section,
                        games: cfg.games@,
                        managers: cfg.managers@,
                        pipes: cfg.pipes@,
                    },
                ),
                split_lines(text@.subrange(pos as int, n as int)),
            ),
        decreases n - pos,
    {
        let ghost st_before = CfgState {
            section,
            games: cfg.games@,
            managers: cfg.managers@,
            pipes: cfg.pipes@,
        };
        // find the end of the current line
        let mut k = pos;
        while k < n && cs[k] != '\n'
            invariant
                pos <= k <= n,
                n == cs@.len(),
                cs@ == text@,
                forall|j: int| pos <= j < k ==> text@[j] != '\n',
            decreases n - k,
        {
            k = k + 1;
        }
        let line = sub_vec(&cs, pos, k);
        let next = if k < n {
            k + 1
        } else {
            k
        };
        proof {
            let seg = text@.subrange(pos as int, n as int);
            assert(forall|j: int| 0 <= j < k - pos ==> seg[j] == text@[j + pos]);
            lemma_split_lines_first(seg, k - pos);
            assert(seg.take(k - pos) =~= line@);
            if k < n {
                assert(seg.subrange(k - pos + 1, seg.len() as int) =~= text@.subrange(
                    next as int,
                    n as int,
                ));
                assert(split_lines(seg) == seq![line@] + split_lines(
                    text@.subrange(next as int, n as int),
                ));
            } else {
                assert(seg.len() > 0);
                assert(seg =~= line@);
                assert(text@.subrange(next as int, n as int).len() == 0);
                assert(split_lines(seg) =~= seq![line@] + split_lines(
                    text@.subrange(next as int, n as int),
                ));
            }
            assert((seq![line@] + split_lines(text@.subrange(next as int, n as int))).drop_first()
                =~= split_lines(text@.subrange(next as int, n as int)));
        }
        let ok = apply_line_exec(&mut cfg, &mut section, &line);
        if !ok {
            proof {
                assert(apply_line(st_before, line@) is None);
                lemma_apply_lines_none(split_lines(text@.subrange(next as int, n as int)));
            }
            return None;
        }
        pos = next;
    }
    proof {
        assert(text@.subrange(n as int, n as int).len() == 0);
    }
    Some(cfg)
}

// ------------------------------------------------------------------
// Round trip: reading a written store back yields the same mappings.
// ------------------------------------------------------------------

/// No newline anywhere in the text.
pub open spec fn no_nl(s: Seq<char>) -> bool {
    forall|j: int| 0 <= j < s.len() ==> s[j] != '\n'
}

/// Escaping leaves no newline in the written form.
pub proof fn lemma_escape_no_nl(s: Seq<char>)
    ensures
        no_nl(escape(s)),
    decreases s.len(),
{
    if s.len() > 0 {
        lemma_escape_no_nl(s.drop_first());
        assert(no_nl(escape_char(s[0])));
    }
}

/// Reading a quoted remainder undoes escaping: the escaped text, a closing
/// quote and anything after scan back to the original text, consuming the
/// escaped text and the quote.
pub proof fn lemma_scan_quoted_escape(x: Seq<char>, tail: Seq<char>)
    ensures
        scan_quoted(escape(x) + seq!['"'] + tail) == Some((x, escape(x).len() + 1 as int)),
    decreases x.len(),
{
    let s = escape(x) + seq!['"'] + tail;
    if x.len() == 0 {
        assert(escape(x) =~= Seq::<char>::empty());
        assert(s[0] == '"');
        assert(scan_quoted(s) == Some((Seq::<char>::empty(), 1int)));
        assert(x =~= Seq::<char>::empty());
    } else {
        let x0 = x[0];
        let xr = x.drop_first();
        assert(escape(x) =~= escape_char(x0) + escape(xr));
        lemma_scan_quoted_escape(xr, tail);
        if escape_char(x0).len() == 2 {
            assert(s[0] == '\\');
            assert(s[1] == escape_char(x0)[1]);
            assert(unescape_char(escape_char(x0)[1]) == Some(x0));
            assert(s.subrange(2, s.len() as int) =~= escape(xr) + seq!['"'] + tail);
            assert(seq![x0] + xr =~= x);
        } else {
            assert(escape_char(x0) =~= seq![x0]);
            assert(s[0] == x0);
            assert(x0 != '"' && x0 != '\\');
            assert(s.drop_first() =~= escape(xr) + seq!['"'] + tail);
            assert(seq![x0] + xr =~= x);
        }
    }
}

/// One entry line without its newline.
pub open spec fn entry_body(k: Seq<char>, v: Seq<char>) -> Seq<char> {
    seq!['"'] + escape(k) + seq!['"', ' ', '=', ' ', '"'] + escape(v) + seq!['"']
}

/// One header line without its newline.
pub open spec fn header_body(name: Seq<char>) -> Seq<char> {
    seq!['['] + name + seq![']']
}

/// The lines of a table's entries, without their newlines.
pub open spec fn entry_bodies(ps: Seq<(Seq<char>, Seq<char>)>) -> Seq<Seq<char>>
    decreases ps.len(),
{
    if ps.len() == 0 {
        Seq::empty()
    } else {
        seq![entry_body(ps[0].0, ps[0].1)] + entry_bodies(ps.drop_first())
    }
}

/// An entry line classifies back to the pair it was written from.
pub proof fn lemma_parse_entry_body(k: Seq<char>, v: Seq<char>)
    ensures
        parse_line(entry_body(k, v)) == LineKind::Entry(k, v),
{
    let l = entry_body(k, v);
    let ek = escape(k);
    let ev = escape(v);
    let tail1 = seq![' ', '=', ' ', '"'] + ev + seq!['"'];
    assert(l[0] == '"');
    assert(crate::cmdline::leading_ws(l) == 0);
    assert(l.subrange(1, l.len() as int) =~= ek + seq!['"'] + tail1);
    lemma_scan_quoted_escape(k, tail1);
    assert(scan_quoted(l.subrange(1, l.len() as int)) == Some((k, ek.len() + 1 as int)));
    let rest = l.subrange(1 + (ek.len() + 1 as int), l.len() as int);
    assert(rest =~= tail1);
    // the equals sign after one blank
    assert(tail1[0] == ' ');
    assert(tail1.drop_first() =~= seq!['=', ' ', '"'] + ev + seq!['"']);
    assert(tail1.drop_first()[0] == '=');
    assert(crate::cmdline::leading_ws(tail1.drop_first()) == 0);
    assert(crate::cmdline::leading_ws(tail1) == 1);
    assert(tail1[1] == '=');
    let r2 = tail1.subrange(2, tail1.len() as int);
    assert(r2 =~= seq![' ', '"'] + ev + seq!['"']);
    assert(r2[0] == ' ');
    assert(r2.drop_first() =~= seq!['"'] + ev + seq!['"']);
    assert(r2.drop_first()[0] == '"');
    assert(crate::cmdline::leading_ws(r2.drop_first()) == 0);
    assert(crate::cmdline::leading_ws(r2) == 1);
    assert(r2[1] == '"');
    assert(r2.subrange(2, r2.len() as int) =~= ev + seq!['"'] + Seq::<char>::empty());
    lemma_scan_quoted_escape(v, Seq::<char>::empty());
    assert(scan_quoted(r2.subrange(2, r2.len() as int)) == Some((v, ev.len() + 1 as int)));
    assert(1 + 1 + (ev.len() + 1 as int) == r2.len());
    assert(scan_eq_value(rest) == Some(v));
}

/// A header line classifies back to its name.
pub proof fn lemma_parse_header_body(name: Seq<char>)
    ensures
        parse_line(header_body(name)) == LineKind::Header(name),
{
    let l = header_body(name);
    assert(l[0] == '[');
    assert(crate::cmdline::leading_ws(l) == 0);
    assert(l.last() == ']');
    assert(l.len() >= 2);
    assert(l.subrange(1, l.len() - 1) =~= name);
}

/// Splitting distributes over a leading newline-free line.
pub proof fn lemma_split_one_line(body: Seq<char>, rest: Seq<char>)
    requires
        no_nl(body),
    ensures
        split_lines(body + seq!['\n'] + rest) == seq![body] + split_lines(rest),
{
    let s = body + seq!['\n'] + rest;
    lemma_split_lines_first(s, body.len() as int);
    assert(s.take(body.len() as int) =~= body);
    assert(s.subrange(body.len() as int + 1, s.len() as int) =~= rest);
}

/// Splitting the entry lines of a table yields its entry bodies.
pub proof fn lemma_split_entries(ps: Seq<(Seq<char>, Seq<char>)>, rest: Seq<char>)
    ensures
        split_lines(entries_text(ps) + rest) == entry_bodies(ps) + split_lines(rest),
    decreases ps.len(),
{
    if ps.len() == 0 {
        assert(entries_text(ps) + rest =~= rest);
        assert(entry_bodies(ps) + split_lines(rest) =~= split_lines(rest));
    } else {
        let body = entry_body(ps[0].0, ps[0].1);
        lemma_escape_no_nl(ps[0].0);
        lemma_escape_no_nl(ps[0].1);
        assert(no_nl(body));
        let r1 = entries_text(ps.drop_first()) + rest;
        assert(entries_text(ps) + rest =~= body + seq!['\n'] + r1);
        lemma_split_one_line(body, r1);
        lemma_split_entries(ps.drop_first(), rest);
        assert(entry_bodies(ps) + split_lines(rest) =~= seq![body] + (entry_bodies(
            ps.drop_first(),
        ) + split_lines(rest)));
    }
}

/// Splitting a header line yields its header body.
pub proof fn lemma_split_header(name: Seq<char>, rest: Seq<char>)
    requires
        no_nl(name),
    ensures
        split_lines(header_line(name) + rest) == seq![header_body(name)] + split_lines(rest),
{
    assert(no_nl(header_body(name)));
    assert(header_line(name) + rest =~= header_body(name) + seq!['\n'] + rest);
    lemma_split_one_line(header_body(name), rest);
}

/// Application distributes over concatenated line lists.
pub proof fn lemma_apply_lines_app(st: Option<CfgState>, a: Seq<Seq<char>>, b: Seq<Seq<char>>)
    ensures
        apply_lines(st, a + b) == apply_lines(apply_lines(st, a), b),
    decreases a.len(),
{
    if a.len() == 0 {
        assert(a + b =~= b);
    } else {
        assert((a + b)[0] == a[0]);
        assert((a + b).drop_first() =~= a.drop_first() + b);
        match st {
            Some(s0) => {
                lemma_apply_lines_app(apply_line(s0, a[0]), a.drop_first(), b);
            },
            None => {
                lemma_apply_lines_none(a + b);
                lemma_apply_lines_none(b);
            },
        }
    }
}

/// The pairs inserted in storage order, from a starting map.
pub open spec fn insert_all(
    m0: Map<Seq<char>, Seq<char>>,
    ps: Seq<(Seq<char>, Seq<char>)>,
) -> Map<Seq<char>, Seq<char>>
    decreases ps.len(),
{
    if ps.len() == 0 {
        m0
    } else {
        insert_all(m0.insert(ps[0].0, ps[0].1), ps.drop_first())
    }
}

/// Inserting one more pair at the end inserts it into the result.
pub proof fn lemma_insert_all_push(
    m0: Map<Seq<char>, Seq<char>>,
    ps: Seq<(Seq<char>, Seq<char>)>,
    p: (Seq<char>, Seq<char>),
)
    ensures
        insert_all(m0, ps.push(p)) == insert_all(m0, ps).insert(p.0, p.1),
    decreases ps.len(),
{
    if ps.len() == 0 {
        assert(ps.push(p)[0] == p);
        assert(ps.push(p).drop_first() =~= Seq::<(Seq<char>, Seq<char>)>::empty());
        assert(insert_all(m0.insert(p.0, p.1), ps.push(p).drop_first()) == m0.insert(p.0, p.1));
        assert(insert_all(m0, ps) == m0);
    } else {
        assert(ps.push(p)[0] == ps[0]);
        assert(ps.push(p).drop_first() =~= ps.drop_first().push(p));
        lemma_insert_all_push(m0.insert(ps[0].0, ps[0].1), ps.drop_first(), p);
    }
}

/// Inserting a table's pairs into an empty map gives the table's map.
pub proof fn lemma_insert_all_map_of(ps: Seq<(Seq<char>, Seq<char>)>)
    ensures
        insert_all(Map::empty(), ps) == map_of(ps),
    decreases ps.len(),
{
    if ps.len() > 0 {
        lemma_insert_all_map_of(ps.drop_last());
        assert(ps.drop_last().push(ps.last()) =~= ps);
        lemma_insert_all_push(Map::empty(), ps.drop_last(), ps.last());
    }
}

/// One table's entry lines, applied in order, insert its pairs into the
/// selected table and touch nothing else.
pub proof fn lemma_apply_entry_bodies(st: CfgState, ps: Seq<(Seq<char>, Seq<char>)>)
    requires
        !(st.section is Preamble),
    ensures
        apply_lines(Some(st), entry_bodies(ps)) == Some(
            match st.section {
                Section::Preamble => st,
                Section::Games => CfgState { games: insert_all(st.games, ps), ..st },
                Section::Managers => CfgState { managers: insert_all(st.managers, ps), ..st },
                Section::Pipes => CfgState { pipes: insert_all(st.pipes, ps), ..st },
            },
        ),
    decreases ps.len(),
{
    if ps.len() == 0 {
        match st.section {
            Section::Preamble => {
            },
            Section::Games => {
                assert(CfgState { games: insert_all(st.games, ps), ..st } =~= st);
            },
            Section::Managers => {
                assert(CfgState { managers: insert_all(st.managers, ps), ..st } =~= st);
            },
            Section::Pipes => {
                assert(CfgState { pipes: insert_all(st.pipes, ps), ..st } =~= st);
            },
        }
    } else {
        lemma_parse_entry_body(ps[0].0, ps[0].1);
        let st1 = apply_line(st, entry_body(ps[0].0, ps[0].1));
        assert(st1 is Some);
        lemma_apply_entry_bodies(st1.unwrap(), ps.drop_first());
        assert(entry_bodies(ps).drop_first() =~= entry_bodies(ps.drop_first()));
        assert(entry_bodies(ps)[0] == entry_body(ps[0].0, ps[0].1));
    }
}

/// Law: a written configuration store reads back to the same mappings.
/// The text of any three tables is accepted by the reader, and the maps it
/// yields are exactly the maps of the written tables; the storage order of
/// the pairs does not matter to the result.
pub proof fn lemma_config_round_trip(
    games: Seq<(Seq<char>, Seq<char>)>,
    managers: Seq<(Seq<char>, Seq<char>)>,
    pipes: Seq<(Seq<char>, Seq<char>)>,
)
    ensures
        parse_config_spec(config_text(games, managers, pipes)) matches Some(st) && st.games
            == map_of(games) && st.managers == map_of(managers) && st.pipes == map_of(pipes),
{
    reveal_strlit("games");
    reveal_strlit("managers");
    reveal_strlit("pipes");
    let t = config_text(games, managers, pipes);
    let r5 = entries_text(pipes);
    let r4 = header_line("pipes"@) + r5;
    let r3 = entries_text(managers) + r4;
    let r2 = header_line("managers"@) + r3;
    let r1 = entries_text(games) + r2;
    assert(t =~= header_line("games"@) + r1);

    // the text's lines
    assert(no_nl("games"@));
    assert(no_nl("managers"@));
    assert(no_nl("pipes"@));
    lemma_split_header("games"@, r1);
    lemma_split_entries(games, r2);
    lemma_split_header("managers"@, r3);
    lemma_split_entries(managers, r4);
    lemma_split_header("pipes"@, r5);
    assert(r5 =~= entries_text(pipes) + Seq::<char>::empty());
    lemma_split_entries(pipes, Seq::<char>::empty());
    assert(split_lines(Seq::<char>::empty()) =~= Seq::<Seq<char>>::empty());
    assert(entry_bodies(pipes) + Seq::<Seq<char>>::empty() =~= entry_bodies(pipes));
    let ls = seq![header_body("games"@)] + (entry_bodies(games) + (seq![
        header_body("managers"@),
    ] + (entry_bodies(managers) + (seq![header_body("pipes"@)] + entry_bodies(pipes)))));
    assert(split_lines(t) == ls);

    // the lines applied in order
    let st0 = init_cfg_state();
    lemma_parse_header_body("games"@);
    lemma_parse_header_body("managers"@);
    lemma_parse_header_body("pipes"@);
    let stg = CfgState { section: Section::Games, ..st0 };
    assert(apply_lines(Some(st0), seq![header_body("games"@)]) == Some(stg)) by {
        assert(apply_line(st0, header_body("games"@)) == Some(stg));
        assert(seq![header_body("games"@)].drop_first() =~= Seq::<Seq<char>>::empty());
        assert(apply_lines(Some(stg), Seq::<Seq<char>>::empty()) == Some(stg));
    }
    lemma_apply_lines_app(Some(st0), seq![header_body("games"@)], entry_bodies(games) + (seq![
        header_body("managers"@),
    ] + (entry_bodies(managers) + (seq![header_body("pipes"@)] + entry_bodies(pipes)))));
    lemma_apply_entry_bodies(stg, games);
    let stg2 = CfgState { games: insert_all(stg.games, games), ..stg };
    lemma_apply_lines_app(Some(stg), entry_bodies(games), seq![header_body("managers"@)] + (
    entry_bodies(managers) + (seq![header_body("pipes"@)] + entry_bodies(pipes))));
    let stm = CfgState { section: Section::Managers, ..stg2 };
    assert(apply_lines(Some(stg2), seq![header_body("managers"@)]) == Some(stm)) by {
        assert(apply_line(stg2, header_body("managers"@)) == Some(stm));
        assert(seq![header_body("managers"@)].drop_first() =~= Seq::<Seq<char>>::empty());
        assert(apply_lines(Some(stm), Seq::<Seq<char>>::empty()) == Some(stm));
    }
    lemma_apply_lines_app(Some(stg2), seq![header_body("managers"@)], entry_bodies(managers) + (
    seq![header_body("pipes"@)] + entry_bodies(pipes)));
    lemma_apply_entry_bodies(stm, managers);
    let stm2 = CfgState { managers: insert_all(stm.managers, managers), ..stm };
    lemma_apply_lines_app(Some(stm), entry_bodies(managers), seq![header_body("pipes"@)]
        + entry_bodies(pipes));
    let stp = CfgState { section: Section::Pipes, ..stm2 };
    assert(apply_lines(Some(stm2), seq![header_body("pipes"@)]) == Some(stp)) by {
        assert(apply_line(stm2, header_body("pipes"@)) == Some(stp));
        assert(seq![header_body("pipes"@)].drop_first() =~= Seq::<Seq<char>>::empty());
        assert(apply_lines(Some(stp), Seq::<Seq<char>>::empty()) == Some(stp));
    }
    lemma_apply_lines_app(Some(stm2), seq![header_body("pipes"@)], entry_bodies(pipes));
    lemma_apply_entry_bodies(stp, pipes);

    lemma_insert_all_map_of(games);
    lemma_insert_all_map_of(managers);
    lemma_insert_all_map_of(pipes);
}

} // verus!
