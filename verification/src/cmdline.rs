use vstd::prelude::*;
use crate::errors::ProxyError;
use crate::text::{chars_of, chars_to_string, sub_vec};

verus! {

/// A run of backslashes.
pub open spec fn repeat_bs(n: nat) -> Seq<char> {
    Seq::new(n, |i: int| '\\')
}

/// The state of the argument splitter between two characters: whether a
/// quoted span is open, how many backslashes are pending (their meaning
/// depends on the next character), the argument being collected, whether
/// one has been started at all, and the finished arguments.
#[verifier::ext_equal]
pub ghost struct ArgSplit {
    pub in_quotes: bool,
    pub pending: nat,
    pub cur: Seq<char>,
    pub started: bool,
    pub acc: Seq<Seq<char>>,
}

/// The splitter before any character has been read.
pub open spec fn init_split() -> ArgSplit {
    ArgSplit { in_quotes: false, pending: 0, cur: Seq::empty(), started: false, acc: Seq::empty() }
}

/// One character of the host shell's argument-splitting rules: 2n
/// backslashes before a quote stand for n backslashes and the quote opens
/// or closes a quoted span; 2n+1 backslashes before a quote stand for n
/// backslashes and a literal quote; backslashes not before a quote are
/// literal; a space or tab outside a quoted span ends the argument.
pub open spec fn arg_step(st: ArgSplit, c: char) -> ArgSplit {
    if c == '\\' {
        ArgSplit {
            in_quotes: st.in_quotes,
            pending: st.pending + 1,
            cur: st.cur,
            started: true,
            acc: st.acc,
        }
    } else if c == '"' {
        if st.pending % 2 == 1 {
            ArgSplit {
                in_quotes: st.in_quotes,
                pending: 0,
                cur: st.cur + repeat_bs(st.pending / 2) + seq!['"'],
                started: true,
                acc: st.acc,
            }
        } else {
            ArgSplit {
                in_quotes: !st.in_quotes,
                pending: 0,
                cur: st.cur + repeat_bs(st.pending / 2),
                started: true,
                acc: st.acc,
            }
        }
    } else if (c == ' ' || c == '\t') && !st.in_quotes {
        if st.started {
            ArgSplit {
                in_quotes: false,
                pending: 0,
                cur: Seq::empty(),
                started: false,
                acc: st.acc.push(st.cur + repeat_bs(st.pending)),
            }
        } else {
            st
        }
    } else {
        ArgSplit {
            in_quotes: st.in_quotes,
            pending: 0,
            cur: st.cur + repeat_bs(st.pending) + seq![c],
            started: true,
            acc: st.acc,
        }
    }
}

/// Ends the splitter: a started argument, including trailing backslashes,
/// is appended.
pub open spec fn finish_split(st: ArgSplit) -> Seq<Seq<char>> {
    if st.started {
        st.acc.push(st.cur + repeat_bs(st.pending))
    } else {
        st.acc
    }
}

/// The splitter's state after all of the text, character by character.
pub open spec fn run_split(s: Seq<char>) -> ArgSplit
    decreases s.len(),
{
    if s.len() == 0 {
        init_split()
    } else {
        arg_step(run_split(s.drop_last()), s.last())
    }
}

/// The arguments of the part of a command line that follows the executable.
pub open spec fn split_args(s: Seq<char>) -> Seq<Seq<char>> {
    finish_split(run_split(s))
}

/// The index of the first space or tab, or the length if there is none.
pub open spec fn first_ws(s: Seq<char>) -> int
    decreases s.len(),
{
    if s.len() == 0 {
        0
    } else if s[0] == ' ' || s[0] == '\t' {
        0
    } else {
        1 + first_ws(s.drop_first())
    }
}

/// The index of the first double quote, or the length if there is none.
pub open spec fn first_quote(s: Seq<char>) -> int
    decreases s.len(),
{
    if s.len() == 0 {
        0
    } else if s[0] == '"' {
        0
    } else {
        1 + first_quote(s.drop_first())
    }
}

/// The number of leading spaces and tabs.
pub open spec fn leading_ws(s: Seq<char>) -> int
    decreases s.len(),
{
    if s.len() == 0 {
        0
    } else if s[0] == ' ' || s[0] == '\t' {
        1 + leading_ws(s.drop_first())
    } else {
        0
    }
}

/// The whitespace characters that trimming removes.
pub open spec fn is_trim_char(c: char) -> bool {
    c == ' ' || c == '\t' || c == '\n' || c == '\r' || c == '\u{0B}' || c == '\u{0C}'
}

/// A line that is empty after trimming: every character is whitespace.
pub open spec fn is_blank(s: Seq<char>) -> bool {
    forall|j: int| 0 <= j < s.len() ==> is_trim_char(s[j])
}

/// Splits a non-blank command line, already stripped of leading whitespace,
/// into the executable and the argument part. A quoted executable runs to
/// the next quote and takes no escape processing; an unquoted one runs to
/// the first space or tab.
pub open spec fn split_line(t: Seq<char>) -> (Seq<char>, Seq<Seq<char>>) {
    if t[0] == '"' {
        let e = first_quote(t.subrange(1, t.len() as int));
        let exe = t.subrange(1, 1 + e);
        let rest = if 1 + e < t.len() {
            t.subrange(2 + e, t.len() as int)
        } else {
            Seq::<char>::empty()
        };
        (exe, split_args(rest))
    } else {
        let e = first_ws(t);
        (t.subrange(0, e), split_args(t.subrange(e, t.len() as int)))
    }
}

/// What `tokenize` returns: nothing for a line that is empty after
/// trimming, else the executable and the arguments of `split_line` for the
/// line after its leading spaces and tabs.
pub open spec fn tokenize_spec(s: Seq<char>) -> Option<(Seq<char>, Seq<Seq<char>>)> {
    if is_blank(s) {
        None
    } else {
        Some(split_line(s.subrange(leading_ws(s), s.len() as int)))
    }
}

/// Appends a run of backslashes.
fn push_backslashes(cur: &mut Vec<char>, n: usize)
    ensures
        final(cur)@ == old(cur)@ + repeat_bs(n as nat),
{
    let mut j: usize = 0;
    while j < n
        invariant
            j <= n,
            cur@ == old(cur)@ + repeat_bs(j as nat),
        decreases n - j,
    {
        cur.push('\\');
        proof {
            assert(cur@ =~= old(cur)@ + repeat_bs((j + 1) as nat));
        }
        j = j + 1;
    }
}

/// Splits a command line into its executable and its arguments, following
/// the host shell's quoting rules, exactly as `tokenize_spec` states them.
/// A line that is blank after trimming is `MalformedCommandLine`.
pub fn tokenize(line: &str) -> (r: Result<(String, Vec<String>), ProxyError>)
    ensures
        match tokenize_spec(line@) {
            Some(p) => r matches Ok(q) && q.0@ == p.0 && q.1@.map_values(|a: String| a@) == p.1,
            None => r == Err::<(String, Vec<String>), ProxyError>(ProxyError::MalformedCommandLine),
        },
{
    let cs = chars_of(line);
    let n = cs.len();

    // a line that is empty after trimming cannot be split
    let mut w: usize = 0;
    while w < n && (cs[w] == ' ' || cs[w] == '\t' || cs[w] == '\n' || cs[w] == '\r' || cs[w]
        == '\u{0B}' || cs[w] == '\u{0C}')
        invariant
            w <= n,
            n == cs@.len(),
            cs@ == line@,
            forall|j: int| 0 <= j < w ==> is_trim_char(line@[j]),
        decreases n - w,
    {
        w = w + 1;
    }
    if w == n {
        proof {
            assert(is_blank(line@));
        }
        return Err(ProxyError::MalformedCommandLine);
    }
    proof {
        assert(!is_trim_char(line@[w as int]));
        assert(!is_blank(line@));
    }

    // strip leading whitespace
    let mut i: usize = 0;
    proof {
        assert(line@.subrange(0, n as int) =~= line@);
    }
    while i < n && (cs[i] == ' ' || cs[i] == '\t')
        invariant
            i <= n,
            n == cs@.len(),
            cs@ == line@,
            leading_ws(line@) == i + leading_ws(line@.subrange(i as int, n as int)),
            forall|j: int| 0 <= j < i ==> (line@[j] == ' ' || line@[j] == '\t'),
        decreases n - i,
    {
        proof {
            assert(line@.subrange(i as int, n as int).drop_first() =~= line@.subrange(
                i + 1,
                n as int,
            ));
        }
        i = i + 1;
    }
    proof {
        assert(leading_ws(line@.subrange(i as int, n as int)) == 0);
        assert(leading_ws(line@) == i);
        // the witness of a non-blank line stands at or past the first
        // character that is no space or tab
        assert(i <= w);
        assert(i < n);
    }
    let t = sub_vec(&cs, i, n);
    let ghost tv = line@.subrange(i as int, n as int);
    let m = t.len();

    // the executable part
    let exe: Vec<char>;
    let rest_from: usize;
    if t[0] == '"' {
        let mut j: usize = 1;
        while j < m && t[j] != '"'
            invariant
                1 <= j <= m,
                m == tv.len(),
                t@ == tv,
                first_quote(tv.subrange(1, m as int)) == (j - 1) + first_quote(
                    tv.subrange(j as int, m as int),
                ),
            decreases m - j,
        {
            proof {
                assert(tv.subrange(j as int, m as int).drop_first() =~= tv.subrange(
                    j + 1,
                    m as int,
                ));
            }
            j = j + 1;
        }
        proof {
            assert(first_quote(tv.subrange(j as int, m as int)) == 0);
            assert(first_quote(tv.subrange(1, m as int)) == j - 1);
        }
        exe = sub_vec(&t, 1, j);
        rest_from = if j < m {
            j + 1
        } else {
            j
        };
    } else {
        let mut j: usize = 0;
        proof {
            assert(tv.subrange(0, m as int) =~= tv);
        }
        while j < m && t[j] != ' ' && t[j] != '\t'
            invariant
                j <= m,
                m == tv.len(),
                t@ == tv,
                first_ws(tv) == j + first_ws(tv.subrange(j as int, m as int)),
            decreases m - j,
        {
            proof {
                assert(tv.subrange(j as int, m as int).drop_first() =~= tv.subrange(
                    j + 1,
                    m as int,
                ));
            }
            j = j + 1;
        }
        proof {
            assert(first_ws(tv.subrange(j as int, m as int)) == 0);
            assert(first_ws(tv) == j);
        }
        exe = sub_vec(&t, 0, j);
        rest_from = j;
    }
    let rest = sub_vec(&t, rest_from, m);
    let ghost restv = rest@;
    proof {
        if tv[0] == '"' {
            let e = first_quote(tv.subrange(1, m as int));
            if 1 + e < tv.len() {
                assert(restv =~= tv.subrange(2 + e, m as int));
            } else {
                assert(restv =~= Seq::<char>::empty());
            }
        }
    }

    // the argument part, by the splitting rules
    let k_max = rest.len();
    let mut in_quotes: bool = false;
    let mut pending: usize = 0;
    let mut cur: Vec<char> = Vec::new();
    let mut started: bool = false;
    let mut acc: Vec<String> = Vec::new();
    let mut k: usize = 0;
    proof {
        assert(restv.take(0) =~= Seq::<char>::empty());
        assert(acc@.map_values(|a: String| a@) =~= Seq::<Seq<char>>::empty());
    }
    while k < k_max
        invariant
            k <= k_max,
            k_max == restv.len(),
            rest@ == restv,
            pending <= k,
            run_split(restv.take(k as int)) == (ArgSplit {
                in_quotes,
                pending: pending as nat,
                cur: cur@,
                started,
                acc: acc@.map_values(|a: String| a@),
            }),
        decreases k_max - k,
    {
        let ghost st_before = ArgSplit {
            in_quotes,
            pending: pending as nat,
            cur: cur@,
            started,
            acc: acc@.map_values(|a: String| a@),
        };
        proof {
            assert(restv.take(k + 1).drop_last() =~= restv.take(k as int));
            assert(restv.take(k + 1).last() == restv[k as int]);
        }
        let c = rest[k];
        if c == '\\' {
            pending = pending + 1;
            started = true;
        } else if c == '"' {
            let half = pending / 2;
            let odd = pending % 2 == 1;
            push_backslashes(&mut cur, half);
            if odd {
                cur.push('"');
                proof {
                    assert(cur@ =~= st_before.cur + repeat_bs(st_before.pending / 2) + seq!['"']);
                }
            } else {
                in_quotes = !in_quotes;
                proof {
                    assert(cur@ =~= st_before.cur + repeat_bs(st_before.pending / 2));
                }
            }
            pending = 0;
            started = true;
        } else if (c == ' ' || c == '\t') && !in_quotes {
            if started {
                push_backslashes(&mut cur, pending);
                let arg = chars_to_string(&cur);
                acc.push(arg);
                proof {
                    assert(acc@.map_values(|a: String| a@) =~= st_before.acc.push(
                        st_before.cur + repeat_bs(st_before.pending),
                    ));
                }
                cur = Vec::new();
                started = false;
                pending = 0;
            }
        } else {
            push_backslashes(&mut cur, pending);
            cur.push(c);
            proof {
                assert(cur@ =~= st_before.cur + repeat_bs(st_before.pending) + seq![
                    restv[k as int],
                ]);
            }
            pending = 0;
            started = true;
        }
        k = k + 1;
    }
    proof {
        assert(restv.take(k_max as int) =~= restv);
    }
    if started {
        push_backslashes(&mut cur, pending);
        let arg = chars_to_string(&cur);
        let ghost before = acc@.map_values(|a: String| a@);
        acc.push(arg);
        proof {
            assert(acc@.map_values(|a: String| a@) =~= before.push(cur@));
        }
    }
    Ok((chars_to_string(&exe), acc))
}

} // verus!
