//! The interactive shell: input ring, line editor, command table and the
//! parsing of command lines.

use vstd::prelude::*;
use vstd::string::{StrSliceExecFns, StringSliceAdditionalSpecFns};
use vstd::utf8::{valid_utf8, decode_utf8};
use crate::config::{SHELL_BUF_SIZE, SYSTICK_HZ, USER_NAME_SIZE, PAGE_SIZE_WORDS, TASK_MAX};
use crate::data_type::queue::Queue;
use crate::kernel::global::Kernel;
use crate::kernel::task::{Task, named_live};

verus! {

/// Capacity of the shell input ring.
pub const INPUT_BUF_SIZE: usize = 256;

/// Whether `c` has the Unicode White_Space property.
pub open spec fn is_white_space(c: char) -> bool {
    let v = c as u32;
    ||| 0x09 <= v <= 0x0D
    ||| v == 0x20
    ||| v == 0x85
    ||| v == 0xA0
    ||| v == 0x1680
    ||| 0x2000 <= v <= 0x200A
    ||| v == 0x2028
    ||| v == 0x2029
    ||| v == 0x202F
    ||| v == 0x205F
    ||| v == 0x3000
}

/// `s` without its leading white space.
pub open spec fn skip_ws(s: Seq<char>) -> Seq<char>
    decreases s.len(),
{
    if s.len() > 0 && is_white_space(s[0]) {
        skip_ws(s.drop_first())
    } else {
        s
    }
}

/// `s` without its trailing white space.
pub open spec fn skip_ws_end(s: Seq<char>) -> Seq<char>
    decreases s.len(),
{
    if s.len() > 0 && is_white_space(s.last()) {
        skip_ws_end(s.drop_last())
    } else {
        s
    }
}

/// `s` without its trailing NUL characters.
pub open spec fn skip_nul_end(s: Seq<char>) -> Seq<char>
    decreases s.len(),
{
    if s.len() > 0 && s.last() == '\0' {
        skip_nul_end(s.drop_last())
    } else {
        s
    }
}

/// `str::trim_start`: `s` without leading white space.
#[verifier::external_body]
fn str_trim_start(s: &str) -> (r: &str)
    ensures
        r@ == skip_ws(s@),
{
    s.trim_start()
}

/// `str::trim`: `s` without leading or trailing white space.
#[verifier::external_body]
fn str_trim(s: &str) -> (r: &str)
    ensures
        r@ == skip_ws_end(skip_ws(s@)),
{
    s.trim()
}

/// `str::starts_with` with a string pattern: whether `p` is a prefix of `s`.
#[verifier::external_body]
fn str_starts_with(s: &str, p: &str) -> (r: bool)
    ensures
        r == p@.is_prefix_of(s@),
{
    s.starts_with(p)
}

/// `str::trim_end_matches('\0')`: `s` without trailing NUL characters.
#[verifier::external_body]
fn str_trim_end_nul(s: &str) -> (r: &str)
    ensures
        r@ == skip_nul_end(s@),
{
    s.trim_end_matches('\0')
}

/// `core::str::from_utf8`: the text of `v` when it is valid UTF-8.
#[verifier::external_body]
fn str_from_utf8(v: &[u8]) -> (r: Option<&str>)
    ensures
        r is Some <==> valid_utf8(v@),
        (r matches Some(s) ==> s@ == decode_utf8(v@)),
{
    core::str::from_utf8(v).ok()
}

// ==========================================
// Input ring
// ==========================================

/// Bytes received for the shell, oldest first; bytes arriving when it is
/// full are dropped.
pub struct InputRing {
    ring: Queue<u8, INPUT_BUF_SIZE>,
}

impl InputRing {
    /// The ring is well formed.
    pub closed spec fn wf(&self) -> bool {
        self.ring.wf()
    }

    /// The pending bytes, oldest first.
    pub closed spec fn pending(&self) -> Seq<u8> {
        self.ring@
    }

    /// An empty ring.
    pub fn new() -> (r: Self)
        ensures
            r.wf(),
            r.pending() == Seq::<u8>::empty(),
    {
        InputRing { ring: Queue::new() }
    }

    /// Appends `c` unless the ring is full.
    pub fn push(&mut self, c: u8)
        requires
            old(self).wf(),
        ensures
            final(self).wf(),
            final(self).pending() == (if old(self).pending().len() < INPUT_BUF_SIZE {
                old(self).pending().push(c)
            } else {
                old(self).pending()
            }),
    {
        let _ = self.ring.push(c);
    }

    /// Takes the oldest byte, if any.
    pub fn pop(&mut self) -> (r: Option<u8>)
        requires
            old(self).wf(),
        ensures
            final(self).wf(),
            old(self).pending().len() == 0 ==> r is None && final(self).pending() == old(self).pending(),
            old(self).pending().len() > 0 ==> r == Some(old(self).pending()[0]) && final(self).pending() == old(self).pending().drop_first(),
    {
        self.ring.serve()
    }
}

/// The ring after pushing each byte of `s` in turn.
pub open spec fn pushed_all(ring: Seq<u8>, s: Seq<u8>) -> Seq<u8>
    decreases s.len(),
{
    if s.len() == 0 {
        ring
    } else {
        let r1 = if ring.len() < INPUT_BUF_SIZE { ring.push(s[0]) } else { ring };
        pushed_all(r1, s.drop_first())
    }
}

/// Queues a line received over the air: its bytes, then a line feed.
pub fn shell_push_input(ring: &mut InputRing, data: &[u8])
    requires
        old(ring).wf(),
    ensures
        final(ring).wf(),
        final(ring).pending() == pushed_all(old(ring).pending(), data@.push(0x0Au8)),
{
    let ghost target = pushed_all(old(ring).pending(), data@.push(0x0Au8));
    let mut i: usize = 0;
    proof {
        assert(data@.push(0x0Au8).skip(0) =~= data@.push(0x0Au8));
    }
    while i < data.len()
        invariant
            ring.wf(),
            i <= data@.len(),
            pushed_all(ring.pending(), data@.push(0x0Au8).skip(i as int)) == target,
        decreases data@.len() - i,
    {
        proof {
            assert(data@.push(0x0Au8).skip(i as int).drop_first() =~= data@.push(0x0Au8).skip(i + 1));
        }
        ring.push(data[i]);
        i = i + 1;
    }
    proof {
        let rest = data@.push(0x0Au8).skip(i as int);
        assert(rest.drop_first() =~= Seq::<u8>::empty());
    }
    ring.push(0x0A);
    proof {
        reveal_with_fuel(pushed_all, 2);
    }
}

// ==========================================
// Commands
// ==========================================

/// The built-in shell commands.
#[derive(Copy, Clone, PartialEq, Eq, Debug, Structural)]
pub enum CmdKind {
    Ls,
    Kill,
    Block,
    Resume,
    Help,
    Time,
    Uname,
    Reboot,
}

/// A command: the word that invokes it and what it runs.
#[derive(Copy, Clone)]
pub struct Cmd {
    pub text: &'static str,
    pub kind: CmdKind,
}

/// What `input` leaves for the arguments when it invokes the command word
/// `text`: after leading white space the input starts with `text`, followed
/// by its end or a space; the arguments are the rest without leading white
/// space.
pub open spec fn match_rest(text: Seq<char>, input: Seq<char>) -> Option<Seq<char>> {
    let t = skip_ws(input);
    if text.is_prefix_of(t) {
        let rest = t.subrange(text.len() as int, t.len() as int);
        if rest.len() == 0 || rest[0] == ' ' {
            Some(skip_ws(rest))
        } else {
            None
        }
    } else {
        None
    }
}

impl Cmd {
    /// The arguments when `input` invokes this command (see [`match_rest`]).
    pub fn try_match<'a>(&self, input: &'a str) -> (r: Option<&'a str>)
        ensures
            match_rest(self.text@, input@) is None ==> r is None,
            (match_rest(self.text@, input@) matches Some(a) ==> r is Some && r->Some_0@ == a),
    {
        let input = str_trim_start(input);
        let len = self.text.unicode_len();
        if str_starts_with(input, self.text) {
            let n = input.unicode_len();
            let rest = input.substring_char(len, n);
            if rest.unicode_len() == 0 {
                return Some(str_trim_start(rest));
            }
            if rest.get_char(0) == ' ' {
                return Some(str_trim_start(rest));
            }
        }
        None
    }
}

/// The command table, in matching order.
pub open spec fn sys_cmds() -> Seq<(Seq<char>, CmdKind)> {
    seq![
        ("ls"@, CmdKind::Ls),
        ("kill"@, CmdKind::Kill),
        ("block"@, CmdKind::Block),
        ("resume"@, CmdKind::Resume),
        ("help"@, CmdKind::Help),
        ("time"@, CmdKind::Time),
        ("uname"@, CmdKind::Uname),
        ("reboot"@, CmdKind::Reboot),
    ]
}

/// The command table, in matching order.
pub fn sys_cmd_map() -> (r: Vec<Cmd>)
    ensures
        r@.len() == sys_cmds().len(),
        forall|i: int| 0 <= i < r@.len() ==> (#[trigger] r@[i]).text@ == sys_cmds()[i].0 && r@[i].kind
            == sys_cmds()[i].1,
{
    let mut v: Vec<Cmd> = Vec::new();
    v.push(Cmd { text: "ls", kind: CmdKind::Ls });
    v.push(Cmd { text: "kill", kind: CmdKind::Kill });
    v.push(Cmd { text: "block", kind: CmdKind::Block });
    v.push(Cmd { text: "resume", kind: CmdKind::Resume });
    v.push(Cmd { text: "help", kind: CmdKind::Help });
    v.push(Cmd { text: "time", kind: CmdKind::Time });
    v.push(Cmd { text: "uname", kind: CmdKind::Uname });
    v.push(Cmd { text: "reboot", kind: CmdKind::Reboot });
    v
}

/// What a command line asks for.
pub enum ShellAction<'a> {
    /// A blank line: nothing to do.
    Nothing,
    /// Run a command with the given arguments.
    Run(CmdKind, &'a str),
    /// No command matched the (trimmed) line.
    Unknown(&'a str),
}

/// Index of the first command of `cmds` that `line` invokes, or `cmds.len()`.
pub open spec fn first_match(cmds: Seq<(Seq<char>, CmdKind)>, line: Seq<char>) -> int
    decreases cmds.len(),
{
    if cmds.len() == 0 {
        0
    } else if match_rest(cmds[0].0, line) is Some {
        0
    } else {
        1 + first_match(cmds.drop_first(), line)
    }
}

proof fn lemma_first_match(cmds: Seq<(Seq<char>, CmdKind)>, line: Seq<char>, k: int)
    requires
        0 <= k <= cmds.len(),
        forall|j: int| 0 <= j < k ==> match_rest(#[trigger] cmds[j].0, line) is None,
        k < cmds.len() ==> match_rest(cmds[k].0, line) is Some,
    ensures
        first_match(cmds, line) == k,
    decreases cmds.len(),
{
    if cmds.len() > 0 && k > 0 {
        assert forall|j: int| 0 <= j < k - 1 implies match_rest(
            #[trigger] cmds.drop_first()[j].0,
            line,
        ) is None by {
            assert(cmds.drop_first()[j] == cmds[j + 1]);
        }
        assert(match_rest(cmds[0].0, line) is None);
        lemma_first_match(cmds.drop_first(), line, k - 1);
    }
}

/// Decides what `line` asks for: nothing for a blank line; else the first
/// command of the table that it invokes, with its arguments; else unknown,
/// reporting the trimmed line.
pub fn parse_command<'a>(line: &'a str) -> (r: ShellAction<'a>)
    ensures
        skip_ws_end(skip_ws(line@)).len() == 0 ==> r is Nothing,
        skip_ws_end(skip_ws(line@)).len() > 0 ==> {
            let k = first_match(sys_cmds(), line@);
            if k < sys_cmds().len() {
                r matches ShellAction::Run(kind, argv) && kind == sys_cmds()[k].1 && match_rest(
                    sys_cmds()[k].0,
                    line@,
                ) == Some(argv@)
            } else {
                r matches ShellAction::Unknown(t) && t@ == skip_ws_end(skip_ws(line@))
            }
        },
{
    let trimmed = str_trim(line);
    if trimmed.unicode_len() == 0 {
        return ShellAction::Nothing;
    }
    let map = sys_cmd_map();
    let mut i: usize = 0;
    while i < map.len()
        invariant
            trimmed@ == skip_ws_end(skip_ws(line@)),
            trimmed@.len() > 0,
            map@.len() == sys_cmds().len(),
            forall|j: int| 0 <= j < map@.len() ==> (#[trigger] map@[j]).text@ == sys_cmds()[j].0
                && map@[j].kind == sys_cmds()[j].1,
            i <= map@.len(),
            forall|j: int| 0 <= j < i ==> match_rest(#[trigger] sys_cmds()[j].0, line@) is None,
        decreases map@.len() - i,
    {
        let cmd = map[i];
        match cmd.try_match(line) {
            Some(argv) => {
                proof {
                    lemma_first_match(sys_cmds(), line@, i as int);
                }
                return ShellAction::Run(cmd.kind, argv);
            },
            None => {},
        }
        i = i + 1;
    }
    proof {
        lemma_first_match(sys_cmds(), line@, i as int);
    }
    ShellAction::Unknown(trimmed)
}

/// Target of a task-control command (`kill`, `block`, `resume`).
pub enum TaskTarget<'a> {
    /// No task name was given.
    BadArgs,
    /// The live task with that name.
    Found(usize),
    /// No live task has that name.
    Unknown(&'a str),
}

/// Resolves the task named by `argv` (trimmed).
pub fn task_ctrl_target<'a>(k: &Kernel, argv: &'a str) -> (r: TaskTarget<'a>)
    requires
        k.wf(),
    ensures
        ({
            let name = skip_ws_end(skip_ws(argv@));
            if name.len() == 0 {
                r is BadArgs
            } else if exists|t: int| 0 <= t < TASK_MAX && named_live(k.tcbs@, t, name) {
                r matches TaskTarget::Found(t) && t < TASK_MAX && named_live(k.tcbs@, t as int, name)
                    && forall|u: int| 0 <= u < t ==> !named_live(k.tcbs@, u, name)
            } else {
                r matches TaskTarget::Unknown(n) && n@ == name
            }
        }),
{
    let name = str_trim(argv);
    if name.unicode_len() == 0 {
        TaskTarget::BadArgs
    } else {
        match Task::find_tid(k, name) {
            Some(tid) => TaskTarget::Found(tid),
            None => TaskTarget::Unknown(name),
        }
    }
}

// ==========================================
// Built-in command helpers
// ==========================================

/// Uptime as hours, minutes and seconds for a tick count.
pub fn uptime_hms(ticks: u32) -> (r: (u32, u32, u32))
    ensures
        ({
            let secs = ticks / SYSTICK_HZ;
            r == ((secs / 3600) as u32, ((secs % 3600) / 60) as u32, (secs % 60) as u32)
        }),
{
    let up_secs = ticks / SYSTICK_HZ;
    let h = up_secs / 3600;
    let m = (up_secs % 3600) / 60;
    let s = up_secs % 60;
    (h, m, s)
}

/// Words of a static-pool stack in use: from the stack pointer up to the
/// stack top (both clamped at 0 and `u32::MAX`).
pub open spec fn used_words(sp: u32, stack_bottom: u32) -> int {
    let top = if stack_bottom + PAGE_SIZE_WORDS * 4 > u32::MAX {
        u32::MAX as int
    } else {
        stack_bottom + PAGE_SIZE_WORDS * 4
    };
    (if top > sp { top - sp } else { 0 }) / 4
}

/// Stack use of a task in percent of its pool stack, capped at 100.
pub fn stack_usage_pct(sp: u32, stack_bottom: u32) -> (r: u32)
    requires
        used_words(sp, stack_bottom) * 100 <= u32::MAX,
    ensures
        r == vstd::math::min(used_words(sp, stack_bottom) * 100 / (PAGE_SIZE_WORDS as int), 100),
{
    let stack_top = stack_bottom.saturating_add((PAGE_SIZE_WORDS as u32) * 4);
    let used_words = stack_top.saturating_sub(sp) / 4;
    let pct = used_words * 100 / (PAGE_SIZE_WORDS as u32);
    if pct < 100 {
        pct
    } else {
        100
    }
}

/// Stores a new user name: `new_name` without surrounding white space, cut
/// to `USER_NAME_SIZE - 1` bytes, NUL-padded. A blank name leaves the stored
/// name as it is. Returns whether the name changed.
pub fn set_user_name(user: &mut Vec<u8>, new_name: &str) -> (r: bool)
    requires
        old(user)@.len() == USER_NAME_SIZE,
    ensures
        final(user)@.len() == USER_NAME_SIZE,
        ({
            let name = skip_ws_end(skip_ws(new_name@));
            r == (name.len() > 0)
        }),
        !r ==> final(user)@ == old(user)@,
        r ==> ({
            let bytes = vstd::utf8::encode_utf8(skip_ws_end(skip_ws(new_name@)));
            let n = vstd::math::min(bytes.len() as int, USER_NAME_SIZE - 1);
            &&& final(user)@.subrange(0, n) == bytes.subrange(0, n)
            &&& forall|i: int| n <= i < USER_NAME_SIZE ==> #[trigger] final(user)@[i] == 0u8
        }),
{
    let name = str_trim(new_name);
    if name.unicode_len() == 0 {
        return false;
    }
    let bytes = name.as_bytes_vec();
    let copy_len = if bytes.len() < USER_NAME_SIZE - 1 {
        bytes.len()
    } else {
        USER_NAME_SIZE - 1
    };
    let mut i: usize = 0;
    while i < USER_NAME_SIZE
        invariant
            user@.len() == USER_NAME_SIZE,
            copy_len <= bytes@.len(),
            copy_len < USER_NAME_SIZE,
            i <= USER_NAME_SIZE,
            forall|j: int| 0 <= j < i && j < copy_len ==> #[trigger] user@[j] == bytes@[j],
            forall|j: int| copy_len <= j < i ==> #[trigger] user@[j] == 0u8,
        decreases USER_NAME_SIZE - i,
    {
        if i < copy_len {
            user.set(i, bytes[i]);
        } else {
            user.set(i, 0);
        }
        i = i + 1;
    }
    proof {
        assert(user@.subrange(0, copy_len as int) =~= bytes@.subrange(0, copy_len as int));
    }
    true
}

/// The stored user name for display: the name as text when it is valid
/// UTF-8 (else `fallback`), without trailing NULs.
pub fn user_name_display<'a>(user: &'a [u8], fallback: &'a str) -> (r: &'a str)
    ensures
        valid_utf8(user@) ==> r@ == skip_nul_end(decode_utf8(user@)),
        !valid_utf8(user@) ==> r@ == skip_nul_end(fallback@),
{
    let s = match str_from_utf8(user) {
        Some(s) => s,
        None => fallback,
    };
    str_trim_end_nul(s)
}

// ==========================================
// Line editor
// ==========================================

/// Edits one input line.
pub struct LineEditor {
    buf: Vec<u8>,
    len: usize,
}

impl LineEditor {
    /// The buffer holds `SHELL_BUF_SIZE` bytes, of which fewer are in use.
    pub closed spec fn wf(&self) -> bool {
        self.buf@.len() == SHELL_BUF_SIZE && self.len < SHELL_BUF_SIZE
    }

    /// The bytes of the line so far.
    pub closed spec fn line(&self) -> Seq<u8> {
        self.buf@.subrange(0, self.len as int)
    }

    /// A line holds fewer than `SHELL_BUF_SIZE` bytes.
    pub proof fn lemma_line_bound(&self)
        requires
            self.wf(),
        ensures
            self.line().len() < SHELL_BUF_SIZE,
    {
    }

    /// An empty line.
    pub fn new() -> (r: Self)
        ensures
            r.wf(),
            r.line() == Seq::<u8>::empty(),
    {
        LineEditor { buf: vec![0u8; SHELL_BUF_SIZE], len: 0 }
    }

    /// Feeds one input byte. A carriage return or line feed ends the line:
    /// its bytes are returned and editing starts afresh. Backspace or delete
    /// drops the last byte. A byte of 0x20 or above is appended while fewer
    /// than `SHELL_BUF_SIZE - 1` bytes are held. Other bytes are ignored.
    pub fn feed(&mut self, c: u8) -> (r: Option<Vec<u8>>)
        requires
            old(self).wf(),
        ensures
            final(self).wf(),
            old(self).line().len() < SHELL_BUF_SIZE,
            final(self).line().len() < SHELL_BUF_SIZE,
            (c == 0x0D || c == 0x0A) ==> (r matches Some(l) && l@ == old(self).line()) && final(self).line()
                == Seq::<u8>::empty(),
            !(c == 0x0D || c == 0x0A) ==> r is None,
            (c == 0x08 || c == 0x7F) ==> final(self).line() == (if old(self).line().len() > 0 {
                old(self).line().drop_last()
            } else {
                old(self).line()
            }),
            (c >= 0x20 && c != 0x7F) ==> final(self).line() == (if old(self).line().len()
                < SHELL_BUF_SIZE - 1 {
                old(self).line().push(c)
            } else {
                old(self).line()
            }),
            (c < 0x20 && c != 0x0D && c != 0x0A && c != 0x08) ==> final(self).line() == old(self).line(),
    {
        if c == 0x0D || c == 0x0A {
            let mut out: Vec<u8> = Vec::new();
            let mut j: usize = 0;
            while j < self.len
                invariant
                    self.wf(),
                    j <= self.len,
                    out@ == self.buf@.subrange(0, j as int),
                decreases self.len - j,
            {
                out.push(self.buf[j]);
                j = j + 1;
                proof {
                    assert(out@ =~= self.buf@.subrange(0, j as int));
                }
            }
            self.len = 0;
            proof {
                assert(self.line() =~= Seq::<u8>::empty());
            }
            Some(out)
        } else if c == 0x08 || c == 0x7F {
            if self.len > 0 {
                self.len = self.len - 1;
                proof {
                    assert(self.line() =~= old(self).line().drop_last());
                }
            }
            None
        } else if c >= 0x20 && self.len < SHELL_BUF_SIZE - 1 {
            let n = self.len;
            self.buf.set(n, c);
            self.len = n + 1;
            proof {
                assert(self.line() =~= old(self).line().push(c));
            }
            None
        } else {
            None
        }
    }
}

/// The text of a finished line, without surrounding white space; `None`
/// when its bytes are not valid UTF-8 (such a line is ignored).
pub fn decode_line(bytes: &[u8]) -> (r: Option<&str>)
    ensures
        r is Some <==> valid_utf8(bytes@),
        (r matches Some(s) ==> s@ == skip_ws_end(skip_ws(decode_utf8(bytes@)))),
{
    match str_from_utf8(bytes) {
        Some(s) => Some(str_trim(s)),
        None => None,
    }
}

/// The uptime shown adds up to the whole seconds elapsed, with minutes and
/// seconds below 60.
pub proof fn law_uptime(ticks: u32)
    ensures
        ({
            let secs = ticks / SYSTICK_HZ;
            let h = secs / 3600;
            let m = (secs % 3600) / 60;
            let s = secs % 60;
            &&& h * 3600 + m * 60 + s == secs
            &&& m < 60
            &&& s < 60
        }),
{
    let secs = ticks / SYSTICK_HZ;
    assert(secs == (secs / 3600) * 3600 + ((secs % 3600) / 60) * 60 + secs % 60) by (nonlinear_arith)
        requires
            secs >= 0,
    ;
}

} // verus!
