use vstd::prelude::*;
use crate::cmdline::tokenize_spec;
use crate::cmdline::tokenize;
use crate::errors::ProxyError;
use crate::text::sub_vec;
use crate::wide::{encode_utf16, encode_utf16_vec, to_utf16, utf16_to_string};

verus! {

/// The code the operating system reports when a key or value is absent.
pub const ERROR_FILE_NOT_FOUND: u32 = 2;

/// The well-known code for a write denied for lack of rights; the one
/// failure with a recovery path (elevation).
pub const ERROR_ACCESS_DENIED: u32 = 5;

/// The code a registry read reports when the buffer offered was too small;
/// a retry with a larger buffer, not an error.
pub const ERROR_MORE_DATA: u32 = 234;

/// Builds the association-store key path for a scheme.
pub fn handler_key_path(scheme: &str) -> (r: String)
    ensures
        r@ == scheme@ + "\\shell\\open\\command"@,
{
    String::from_str(scheme).concat("\\shell\\open\\command")
}

/// Builds the handler record for an executable: the quoted executable path
/// followed by the dispatch verb and the quoted URL placeholder.
pub fn handler_command_line(exe: &str) -> (r: String)
    ensures
        r@ == "\""@ + exe@ + "\" url \"%1\""@,
{
    String::from_str("\"").concat(exe).concat("\" url \"%1\"")
}

/// The first quote after a quote-free prefix stands right after it.
proof fn lemma_first_quote_after(x: Seq<char>, tail: Seq<char>)
    requires
        forall|j: int| 0 <= j < x.len() ==> x[j] != '"',
    ensures
        crate::cmdline::first_quote(x + seq!['"'] + tail) == x.len(),
    decreases x.len(),
{
    let s = x + seq!['"'] + tail;
    if x.len() == 0 {
        assert(s[0] == '"');
    } else {
        assert(s[0] == x[0]);
        lemma_first_quote_after(x.drop_first(), tail);
        assert(s.drop_first() =~= x.drop_first() + seq!['"'] + tail);
    }
}

/// Law: the handler record is inverse-consistent with the splitting rules:
/// for any executable path free of quote characters, the record written
/// for it splits back into exactly that path and the two arguments of the
/// template, the dispatch verb and the quoted URL placeholder.
pub proof fn lemma_handler_record_round_trip(exe: Seq<char>)
    requires
        forall|j: int| 0 <= j < exe.len() ==> exe[j] != '"',
    ensures
        crate::cmdline::tokenize_spec("\""@ + exe + "\" url \"%1\""@) == Some(
            (exe, seq!["url"@, "%1"@]),
        ),
{
    reveal_strlit("\"");
    reveal_strlit("\" url \"%1\"");
    reveal_strlit("url");
    reveal_strlit("%1");
    let s = "\""@ + exe + "\" url \"%1\""@;
    let rest9 = seq![' ', 'u', 'r', 'l', ' ', '"', '%', '1', '"'];
    assert("\" url \"%1\""@ =~= seq!['"'] + rest9);
    assert(s[0] == '"');
    assert(!crate::cmdline::is_trim_char(s[0]));
    assert(!crate::cmdline::is_blank(s));
    assert(crate::cmdline::leading_ws(s) == 0);
    assert(s.subrange(0, s.len() as int) =~= s);

    // the executable part: up to the closing quote, verbatim
    assert(s.subrange(1, s.len() as int) =~= exe + seq!['"'] + rest9);
    lemma_first_quote_after(exe, rest9);
    assert(s.subrange(1, 1 + exe.len() as int) =~= exe);
    assert(s.subrange(2 + exe.len() as int, s.len() as int) =~= rest9);

    // the argument part, character by character
    let a1 = seq![' '];
    let a2 = seq![' ', 'u'];
    let a3 = seq![' ', 'u', 'r'];
    let a4 = seq![' ', 'u', 'r', 'l'];
    let a5 = seq![' ', 'u', 'r', 'l', ' '];
    let a6 = seq![' ', 'u', 'r', 'l', ' ', '"'];
    let a7 = seq![' ', 'u', 'r', 'l', ' ', '"', '%'];
    let a8 = seq![' ', 'u', 'r', 'l', ' ', '"', '%', '1'];
    assert(a1.drop_last() =~= Seq::<char>::empty());
    assert(a2.drop_last() =~= a1);
    assert(a3.drop_last() =~= a2);
    assert(a4.drop_last() =~= a3);
    assert(a5.drop_last() =~= a4);
    assert(a6.drop_last() =~= a5);
    assert(a7.drop_last() =~= a6);
    assert(a8.drop_last() =~= a7);
    assert(rest9.drop_last() =~= a8);
    assert(crate::cmdline::run_split(Seq::<char>::empty()) == crate::cmdline::init_split());
    assert(crate::cmdline::run_split(a1) =~= crate::cmdline::init_split());
    assert(crate::cmdline::run_split(a2) =~= (crate::cmdline::ArgSplit {
        in_quotes: false,
        pending: 0,
        cur: seq!['u'],
        started: true,
        acc: Seq::empty(),
    }));
    assert(crate::cmdline::run_split(a3) =~= (crate::cmdline::ArgSplit {
        in_quotes: false,
        pending: 0,
        cur: seq!['u', 'r'],
        started: true,
        acc: Seq::empty(),
    }));
    assert(crate::cmdline::run_split(a4) =~= (crate::cmdline::ArgSplit {
        in_quotes: false,
        pending: 0,
        cur: seq!['u', 'r', 'l'],
        started: true,
        acc: Seq::empty(),
    }));
    assert(crate::cmdline::run_split(a5) =~= (crate::cmdline::ArgSplit {
        in_quotes: false,
        pending: 0,
        cur: Seq::empty(),
        started: false,
        acc: seq![seq!['u', 'r', 'l']],
    }));
    assert(crate::cmdline::run_split(a6) =~= (crate::cmdline::ArgSplit {
        in_quotes: true,
        pending: 0,
        cur: Seq::empty(),
        started: true,
        acc: seq![seq!['u', 'r', 'l']],
    }));
    assert(crate::cmdline::run_split(a7) =~= (crate::cmdline::ArgSplit {
        in_quotes: true,
        pending: 0,
        cur: seq!['%'],
        started: true,
        acc: seq![seq!['u', 'r', 'l']],
    }));
    assert(crate::cmdline::run_split(a8) =~= (crate::cmdline::ArgSplit {
        in_quotes: true,
        pending: 0,
        cur: seq!['%', '1'],
        started: true,
        acc: seq![seq!['u', 'r', 'l']],
    }));
    assert(crate::cmdline::run_split(rest9) =~= (crate::cmdline::ArgSplit {
        in_quotes: false,
        pending: 0,
        cur: seq!['%', '1'],
        started: true,
        acc: seq![seq!['u', 'r', 'l']],
    }));
    assert("url"@ =~= seq!['u', 'r', 'l']);
    assert("%1"@ =~= seq!['%', '1']);
    assert(crate::cmdline::split_args(rest9) =~= seq!["url"@, "%1"@]);
}

/// The little-endian byte layout of a sequence of UTF-16 code units.
pub open spec fn le_bytes(us: Seq<u16>) -> Seq<u8>
    decreases us.len(),
{
    if us.len() == 0 {
        Seq::empty()
    } else {
        seq![(us[0] % 256) as u8, (us[0] / 256) as u8] + le_bytes(us.drop_first())
    }
}

/// The exact binary value written to the association store for a command
/// line: its UTF-16 code units with a null terminator, in little-endian
/// byte order.
pub fn reg_sz_value(command: &str) -> (r: Vec<u8>)
    ensures
        r@ == le_bytes(encode_utf16(command@).push(0u16)),
{
    let units = to_utf16(command);
    let n = units.len();
    let ghost uv = units@;
    let mut r: Vec<u8> = Vec::new();
    let mut i: usize = 0;
    proof {
        assert(uv.subrange(0, n as int) =~= uv);
    }
    while i < n
        invariant
            i <= n,
            n == uv.len(),
            units@ == uv,
            r@ + le_bytes(uv.subrange(i as int, n as int)) == le_bytes(uv),
        decreases n - i,
    {
        proof {
            assert(uv.subrange(i as int, n as int).drop_first() =~= uv.subrange(i + 1, n as int));
        }
        let ghost before = r@;
        let u = units[i];
        r.push((u % 256) as u8);
        r.push((u / 256) as u8);
        proof {
            assert(r@ =~= before + seq![(uv[i as int] % 256) as u8, (uv[i as int] / 256) as u8]);
        }
        i = i + 1;
    }
    proof {
        assert(uv.subrange(n as int, n as int) =~= Seq::<u16>::empty());
    }
    r
}

/// The number of characters a stored value of `data_size` bytes holds, the
/// null terminator not counted.
pub open spec fn value_units(data_size: u32) -> int {
    if data_size >= 2 {
        data_size as int / 2 - 1
    } else {
        0
    }
}

/// The number of code units a buffer must hold to receive `data_size`
/// bytes.
pub open spec fn needed_units(data_size: u32) -> int {
    data_size as int / 2 + data_size as int % 2
}

/// What to do after one attempt to read a stored value.
#[derive(Debug, PartialEq, Eq)]
pub enum ReadStep {
    /// The value is in the buffer; its first `units` code units are it.
    Done { units: usize },
    /// The buffer was too small; read again with room for `units` code
    /// units.
    Retry { units: usize },
    /// The read failed with this code.
    Fail { code: u32 },
}

/// Decides the next step of the two-phase buffered read: every read may
/// report "more data" instead of filling partially, and that report is a
/// retry with the required size, not an error.
pub fn read_value_step(code: u32, data_size: u32) -> (r: ReadStep)
    ensures
        code == 0 ==> r == (ReadStep::Done { units: value_units(data_size) as usize }),
        code == ERROR_MORE_DATA ==> r == (ReadStep::Retry { units: needed_units(data_size) as usize }),
        code != 0 && code != ERROR_MORE_DATA ==> r == (ReadStep::Fail { code }),
{
    if code == 0 {
        let units: u32 = if data_size >= 2 {
            data_size / 2 - 1
        } else {
            0
        };
        ReadStep::Done { units: units as usize }
    } else if code == ERROR_MORE_DATA {
        ReadStep::Retry { units: (data_size / 2 + data_size % 2) as usize }
    } else {
        ReadStep::Fail { code }
    }
}

/// Recovers the stored string from a read buffer: the terminator is cut
/// off and the code units are decoded. Decoding succeeds whenever the
/// stored units are the encoding of some string; `None` only on malformed
/// data from the operating system itself.
pub fn decode_registry_value(buffer: &Vec<u16>, data_size: u32) -> (r: Option<String>)
    requires
        value_units(data_size) <= buffer@.len(),
    ensures
        r matches Some(s) ==> encode_utf16(s@) == buffer@.take(value_units(data_size)),
        r is None ==> forall|s: Seq<char>|
            encode_utf16(s) != buffer@.take(value_units(data_size)),
{
    let units: u32 = if data_size >= 2 {
        data_size / 2 - 1
    } else {
        0
    };
    let v = sub_vec(buffer, 0, units as usize);
    utf16_to_string(&v)
}

/// Sorts a failed read of the handler record: an absent key or value means
/// no handler is installed.
pub fn classify_read_code(code: u32) -> (r: ProxyError)
    ensures
        code == ERROR_FILE_NOT_FOUND ==> r == ProxyError::NotRegistered,
        code == ERROR_ACCESS_DENIED ==> r == ProxyError::AccessDenied,
        code != ERROR_FILE_NOT_FOUND && code != ERROR_ACCESS_DENIED ==> r == ProxyError::OsError(
            code,
        ),
{
    if code == ERROR_FILE_NOT_FOUND {
        ProxyError::NotRegistered
    } else if code == ERROR_ACCESS_DENIED {
        ProxyError::AccessDenied
    } else {
        ProxyError::OsError(code)
    }
}

/// Sorts a failed write of the handler record.
pub fn classify_write_code(code: u32) -> (r: ProxyError)
    ensures
        code == ERROR_ACCESS_DENIED ==> r == ProxyError::AccessDenied,
        code != ERROR_ACCESS_DENIED ==> r == ProxyError::OsError(code),
{
    if code == ERROR_ACCESS_DENIED {
        ProxyError::AccessDenied
    } else {
        ProxyError::OsError(code)
    }
}

/// What an installation does after its one registry write. There is no
/// action that writes again: a denied write is followed by exactly one
/// elevated re-invocation, never by a second write attempt in the same
/// process.
#[derive(Debug, PartialEq, Eq)]
pub enum InstallAction {
    /// The write succeeded; installation is complete.
    Completed,
    /// The write was denied for lack of rights: re-invoke elevated, once.
    Elevate,
    /// The write failed for another reason; installation fails.
    Fail { code: u32 },
}

/// Decides what follows the one registry write of an installation.
pub fn install_next_step(write_code: u32) -> (r: InstallAction)
    ensures
        write_code == 0 ==> r == InstallAction::Completed,
        write_code == ERROR_ACCESS_DENIED ==> r == InstallAction::Elevate,
        write_code != 0 && write_code != ERROR_ACCESS_DENIED ==> r == (InstallAction::Fail {
            code: write_code,
        }),
{
    if write_code == 0 {
        InstallAction::Completed
    } else if write_code == ERROR_ACCESS_DENIED {
        InstallAction::Elevate
    } else {
        InstallAction::Fail { code: write_code }
    }
}

/// The index just after the last path separator, or zero.
pub open spec fn after_last_sep(s: Seq<char>) -> int
    decreases s.len(),
{
    if s.len() == 0 {
        0
    } else if s.last() == '\\' || s.last() == '/' {
        s.len() as int
    } else {
        after_last_sep(s.drop_last())
    }
}

/// The file-name part of a path: what follows the last separator.
pub open spec fn file_name_of(s: Seq<char>) -> Seq<char> {
    s.subrange(after_last_sep(s), s.len() as int)
}

/// The containing folder of a path: what precedes the last separator.
pub open spec fn parent_dir_of(s: Seq<char>) -> Seq<char> {
    if after_last_sep(s) > 0 {
        s.subrange(0, after_last_sep(s) - 1)
    } else {
        Seq::empty()
    }
}

/// Finds the index just after the last path separator.
fn find_after_last_sep(cs: &Vec<char>) -> (r: usize)
    ensures
        r == after_last_sep(cs@),
        r <= cs@.len(),
{
    let n = cs.len();
    let mut i = n;
    proof {
        assert(cs@.take(n as int) =~= cs@);
    }
    while i > 0 && cs[i - 1] != '\\' && cs[i - 1] != '/'
        invariant
            i <= n,
            n == cs@.len(),
            after_last_sep(cs@) == after_last_sep(cs@.take(i as int)),
        decreases i,
    {
        proof {
            assert(cs@.take(i as int).drop_last() =~= cs@.take(i - 1));
            assert(cs@.take(i as int).last() == cs@[i - 1]);
        }
        i = i - 1;
    }
    proof {
        if i > 0 {
            assert(cs@.take(i as int).last() == cs@[i - 1]);
        }
    }
    i
}

/// The file-name part of a path.
pub fn file_name_part(path: &str) -> (r: String)
    ensures
        r@ == file_name_of(path@),
{
    let cs = crate::text::chars_of(path);
    let cut = find_after_last_sep(&cs);
    let tail = sub_vec(&cs, cut, cs.len());
    crate::text::chars_to_string(&tail)
}

/// The containing folder of a path.
pub fn parent_dir_part(path: &str) -> (r: String)
    ensures
        r@ == parent_dir_of(path@),
{
    let cs = crate::text::chars_of(path);
    let cut = find_after_last_sep(&cs);
    if cut > 0 {
        let head = sub_vec(&cs, 0, cut - 1);
        crate::text::chars_to_string(&head)
    } else {
        let r = String::new();
        proof {
            assert(r@ =~= parent_dir_of(path@));
        }
        r
    }
}

/// A character's value with an upper-case ASCII letter folded to lower
/// case, as the operating system compares path names.
pub open spec fn lower_ascii_val(c: char) -> int {
    if 65 <= c as u32 <= 90 {
        c as u32 + 32
    } else {
        c as int
    }
}

/// Character-wise ASCII-case-insensitive equality.
pub open spec fn eq_ignore_ascii_case(a: Seq<char>, b: Seq<char>) -> bool {
    a.len() == b.len() && (forall|i: int|
        0 <= i < a.len() ==> lower_ascii_val(a[i]) == lower_ascii_val(b[i]))
}

/// Compares two strings without regard to ASCII letter case.
pub fn ascii_eq_ignore_case(a: &str, b: &str) -> (r: bool)
    ensures
        r == eq_ignore_ascii_case(a@, b@),
{
    let n = a.unicode_len();
    if n != b.unicode_len() {
        return false;
    }
    let mut i: usize = 0;
    while i < n
        invariant
            i <= n,
            n == a@.len(),
            n == b@.len(),
            forall|j: int| 0 <= j < i ==> lower_ascii_val(a@[j]) == lower_ascii_val(b@[j]),
        decreases n - i,
    {
        let ca = a.get_char(i) as u32;
        let cb = b.get_char(i) as u32;
        let la = if 65 <= ca && ca <= 90 {
            ca + 32
        } else {
            ca
        };
        let lb = if 65 <= cb && cb <= 90 {
            cb + 32
        } else {
            cb
        };
        if la != lb {
            return false;
        }
        i = i + 1;
    }
    true
}

/// Decides whether a handler record names this very program: the record is
/// split as the operating system would split it, and only the file name of
/// its executable is compared, without regard to ASCII letter case, against
/// the caller's own executable file name. A record that is blank cannot be
/// split and is `MalformedCommandLine`.
pub fn is_self_handler_command(command_line: &str, own_exe_name: &str) -> (r: Result<
    bool,
    ProxyError,
>)
    ensures
        match tokenize_spec(command_line@) {
            Some(p) => r matches Ok(b) && b == eq_ignore_ascii_case(
                file_name_of(p.0),
                own_exe_name@,
            ),
            None => r == Err::<bool, ProxyError>(ProxyError::MalformedCommandLine),
        },
{
    match tokenize(command_line) {
        Ok((exe, _args)) => {
            let name = file_name_part(exe.as_str());
            Ok(ascii_eq_ignore_case(name.as_str(), own_exe_name))
        },
        Err(e) => Err(e),
    }
}

/// The parts joined by single spaces.
pub open spec fn join_spaces(parts: Seq<Seq<char>>) -> Seq<char>
    decreases parts.len(),
{
    if parts.len() == 0 {
        Seq::empty()
    } else if parts.len() == 1 {
        parts[0]
    } else {
        join_spaces(parts.drop_last()) + seq![' '] + parts.last()
    }
}

/// Joins arguments with single spaces, the form the privileged-execution
/// call takes its parameter string in.
pub fn join_args(args: &Vec<String>) -> (r: String)
    ensures
        r@ == join_spaces(args@.map_values(|a: String| a@)),
{
    let ghost parts = args@.map_values(|a: String| a@);
    let mut r = String::new();
    let n = args.len();
    let mut i: usize = 0;
    while i < n
        invariant
            i <= n,
            n == args@.len(),
            parts == args@.map_values(|a: String| a@),
            r@ == join_spaces(parts.take(i as int)),
        decreases n - i,
    {
        proof {
            assert(parts.take(i + 1).drop_last() =~= parts.take(i as int));
            assert(parts.take(i + 1).last() == parts[i as int]);
        }
        if i > 0 {
            r.append(" ");
        }
        r.append(args[i].as_str());
        proof {
            reveal_strlit(" ");
            assert(" "@ =~= seq![' ']);
            assert(r@ =~= join_spaces(parts.take(i + 1)));
        }
        i = i + 1;
    }
    proof {
        assert(parts.take(n as int) =~= parts);
    }
    r
}

/// The wide strings handed to the privileged-execution mechanism: the verb,
/// the executable, its containing folder as the working directory, and the
/// arguments joined into one parameter string — each null-terminated.
pub struct ElevationRequest {
    pub verb: Vec<u16>,
    pub file: Vec<u16>,
    pub directory: Vec<u16>,
    pub parameters: Vec<u16>,
}

/// Marshals an elevated re-invocation of an executable with arguments.
pub fn elevation_request(exe: &str, args: &Vec<String>) -> (r: ElevationRequest)
    ensures
        r.verb@ == encode_utf16("runas"@).push(0u16),
        r.file@ == encode_utf16(exe@).push(0u16),
        r.directory@ == encode_utf16(parent_dir_of(exe@)).push(0u16),
        r.parameters@ == encode_utf16(join_spaces(args@.map_values(|a: String| a@))).push(0u16),
{
    let dir = parent_dir_part(exe);
    let params = join_args(args);
    ElevationRequest {
        verb: to_utf16("runas"),
        file: to_utf16(exe),
        directory: to_utf16(dir.as_str()),
        parameters: to_utf16(params.as_str()),
    }
}

} // verus!
