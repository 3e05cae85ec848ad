//! Recognising the X server that runs on a terminal by its process.
use vstd::prelude::*;
use vstd::utf8::{decode_utf8, valid_utf8};

use crate::text::{
    chars_of, decimal, is_digit, numbered, parse_number, parsed, trim, trimmed,
};
use crate::vt::tty_path;

verus! {

/// What has to be known of an X server to connect to it.
pub struct XServer {
    pub display: u32,
    pub auth_file: Option<String>,
}

/// What the arguments of an X server say.
pub struct ServerArgs {
    pub display: Option<u32>,
    pub auth_file: Option<String>,
    pub on_vt: Option<u16>,
}

/// Whether a process is the X server of a terminal.
pub enum Verdict {
    /// It runs on another terminal.
    Elsewhere,
    /// It is the one.
    Here(XServer),
    /// It is the one if it holds the terminal's device open.
    IfHoldsTty(XServer),
}

/// A process, as far as it has to be known to tell whether it is an X server.
pub struct Process {
    /// Its entry in the process directory.
    pub name: String,
    /// The name of its program.
    pub comm: String,
    /// Its command line, unless that could not be read.
    pub cmdline: Option<Vec<u8>>,
    /// The files that it holds open.
    pub links: Vec<String>,
}

/// The texts and bytes of a process.
pub struct ProcessView {
    pub name: Seq<char>,
    pub comm: Seq<char>,
    pub cmdline: Option<Seq<u8>>,
    pub links: Seq<Seq<char>>,
}

impl View for Process {
    type V = ProcessView;

    open spec fn view(&self) -> ProcessView {
        ProcessView {
            name: self.name@,
            comm: self.comm@,
            cmdline: match self.cmdline {
                Some(c) => Some(c@),
                None => None,
            },
            links: texts(self.links@),
        }
    }
}

/// The text of bytes, with the replacement character where they are no UTF-8.
pub uninterp spec fn utf8_lossy(bytes: Seq<u8>) -> Seq<char>;

/// Calls `String::from_utf8_lossy`: the text is a function of the bytes alone.
/// Of bytes that are valid UTF-8 it is what they encode; otherwise it holds
/// U+FFFD, the replacement character, in place of what is invalid. How much of
/// the bytes each replacement character stands for is not stated.
#[verifier::external_body]
fn from_utf8_lossy(bytes: &[u8]) -> (text: String)
    ensures
        text@ == utf8_lossy(bytes@),
        valid_utf8(bytes@) ==> text@ == decode_utf8(bytes@),
        !valid_utf8(bytes@) ==> text@.contains('\u{fffd}'),
{
    String::from_utf8_lossy(bytes).into_owned()
}

/// The pieces of `s` between zero bytes. There is always at least one.
pub open spec fn split_nul(s: Seq<u8>) -> Seq<Seq<u8>>
    decreases s.len(),
{
    if s.len() == 0 {
        seq![Seq::empty()]
    } else {
        let before = split_nul(s.drop_last());
        if s.last() == 0 {
            before.push(Seq::empty())
        } else {
            before.drop_last().push(before.last().push(s.last()))
        }
    }
}

/// The arguments in a process's command line.
pub open spec fn args_in(cmdline: Seq<u8>) -> Seq<Seq<char>> {
    split_nul(cmdline).map_values(|p: Seq<u8>| utf8_lossy(p))
}

/// The text of bytes is what they encode, or holds a replacement character.
pub open spec fn read_as_utf8(bytes: Seq<u8>) -> bool {
    if valid_utf8(bytes) {
        utf8_lossy(bytes) == decode_utf8(bytes)
    } else {
        utf8_lossy(bytes).contains('\u{fffd}')
    }
}

/// Each argument is read as what it encodes, or holds a replacement character.
pub open spec fn args_read_as_utf8(cmdline: Seq<u8>) -> bool {
    forall|i: int|
        0 <= i < split_nul(cmdline).len() ==> read_as_utf8(#[trigger] split_nul(cmdline)[i])
}

/// The texts of a list of strings.
pub open spec fn texts(args: Seq<String>) -> Seq<Seq<char>> {
    args.map_values(|a: String| a@)
}

/// The display that an argument names: a colon and a number.
pub open spec fn display_in(arg: Seq<char>) -> Option<nat> {
    if arg.len() > 0 && arg[0] == ':' {
        parsed(arg.drop_first(), u32::MAX as nat)
    } else {
        None
    }
}

/// The terminal that an argument names: `vt` and a number.
pub open spec fn vt_in(arg: Seq<char>) -> Option<nat> {
    if arg.len() >= 2 && arg[0] == 'v' && arg[1] == 't' {
        parsed(arg.skip(2), u16::MAX as nat)
    } else {
        None
    }
}

/// The display that the last such argument after the program's name gives.
pub open spec fn display_of(args: Seq<Seq<char>>) -> Option<nat>
    decreases args.len(),
{
    if args.len() <= 1 {
        None
    } else if display_in(args.last()) is Some {
        display_in(args.last())
    } else {
        display_of(args.drop_last())
    }
}

/// The terminal that the last such argument after the program's name gives.
pub open spec fn vt_of(args: Seq<Seq<char>>) -> Option<nat>
    decreases args.len(),
{
    if args.len() <= 1 {
        None
    } else if vt_in(args.last()) is Some {
        vt_in(args.last())
    } else {
        vt_of(args.drop_last())
    }
}

/// The last place after the program's name where `-auth` stands.
pub open spec fn auth_place(args: Seq<Seq<char>>) -> Option<int>
    decreases args.len(),
{
    if args.len() <= 1 {
        None
    } else if args.last() == "-auth"@ {
        Some(args.len() - 1)
    } else {
        auth_place(args.drop_last())
    }
}

/// What follows the last `-auth`, if anything does.
pub open spec fn auth_of(args: Seq<Seq<char>>) -> Option<Seq<char>> {
    match auth_place(args) {
        Some(i) if i + 1 < args.len() => Some(args[i + 1]),
        _ => None,
    }
}

/// `o` holds the number that `spec` does, if any.
pub open spec fn same_number<T: Integer>(o: Option<T>, spec: Option<nat>) -> bool {
    match o {
        Some(v) => spec == Some(v as nat),
        None => spec is None,
    }
}

/// `o` holds the text that `spec` does, if any.
pub open spec fn same_text(o: Option<String>, spec: Option<Seq<char>>) -> bool {
    match o {
        Some(s) => spec == Some(s@),
        None => spec is None,
    }
}

/// Only digits, as the names of processes are.
pub open spec fn names_pid(name: Seq<char>) -> bool {
    forall|i: int| 0 <= i < name.len() ==> is_digit(#[trigger] name[i])
}

/// The name of an X server's program.
pub open spec fn names_x_server(comm: Seq<char>) -> bool {
    trimmed(comm) == "Xorg"@ || trimmed(comm) == "X"@
}

/// Whether the name of an entry in the process directory is that of a process.
pub fn is_pid(name: &str) -> (yes: bool)
    ensures
        yes == names_pid(name@),
        yes == forall|i: int| 0 <= i < name@.len() ==> '0' <= #[trigger] name@[i] <= '9',
{
    let chars = chars_of(name);
    let n: usize = chars.len();
    let mut i: usize = 0;
    while i < n
        invariant
            i <= n,
            n == chars@.len(),
            chars@ == name@,
            forall|j: int| 0 <= j < i ==> is_digit(#[trigger] name@[j]),
        decreases n - i,
    {
        let c = chars[i];
        if c < '0' || c > '9' {
            assert(!is_digit(name@[i as int]));
            return false;
        }
        i = i + 1;
    }
    true
}

/// Whether a process of this name is an X server.
pub fn is_x_server(comm: &str) -> (yes: bool)
    ensures
        yes == names_x_server(comm@),
        yes == (trimmed(comm@) == "Xorg"@ || trimmed(comm@) == "X"@),
{
    let name = trim(comm);
    same_chars(&name, "Xorg") || same_chars(&name, "X")
}

/// Whether the characters are those of the text.
fn same_chars(chars: &Vec<char>, text: &str) -> (same: bool)
    ensures
        same == (chars@ == text@),
{
    let other = chars_of(text);
    if chars.len() != other.len() {
        return false;
    }
    let n: usize = chars.len();
    let mut i: usize = 0;
    while i < n
        invariant
            i <= n,
            n == chars@.len(),
            n == other@.len(),
            other@ == text@,
            forall|j: int| 0 <= j < i ==> chars@[j] == other@[j],
        decreases n - i,
    {
        if chars[i] != other[i] {
            return false;
        }
        i = i + 1;
    }
    assert(chars@ =~= text@);
    true
}

/// The arguments in a process's command line.
pub fn split_cmdline(cmdline: &[u8]) -> (args: Vec<String>)
    ensures
        texts(args@) == args_in(cmdline@),
        args_read_as_utf8(cmdline@),
        args@.len() == split_nul(cmdline@).len(),
        forall|i: int|
            0 <= i < args@.len() ==> (#[trigger] args@[i])@ == utf8_lossy(split_nul(cmdline@)[i]),
{
    let n: usize = cmdline.len();
    let mut args: Vec<String> = Vec::new();
    let mut piece: Vec<u8> = Vec::new();
    let mut i: usize = 0;
    assert(cmdline@.take(0) =~= Seq::empty());
    assert(texts(args@).push(utf8_lossy(piece@)) =~= args_in(cmdline@.take(0)));
    assert(split_nul(cmdline@.take(0)).last() == piece@);
    while i < n
        invariant
            i <= n,
            n == cmdline@.len(),
            texts(args@).push(utf8_lossy(piece@)) == args_in(cmdline@.take(i as int)),
            split_nul(cmdline@.take(i as int)).len() > 0,
            split_nul(cmdline@.take(i as int)).last() == piece@,
            forall|j: int|
                0 <= j < split_nul(cmdline@.take(i as int)).len() - 1 ==> read_as_utf8(
                    #[trigger] split_nul(cmdline@.take(i as int))[j],
                ),
        decreases n - i,
    {
        let ghost before = split_nul(cmdline@.take(i as int));
        let ghost after = split_nul(cmdline@.take(i + 1));
        let ghost told = texts(args@);
        assert(cmdline@.take(i + 1).drop_last() =~= cmdline@.take(i as int));
        assert(cmdline@.take(i + 1).last() == cmdline@[i as int]);
        let ghost known = args_in(cmdline@.take(i as int));
        assert(known == told.push(utf8_lossy(piece@)));
        assert(known.len() == before.len());
        assert forall|j: int| 0 <= j < before.len() - 1 implies told[j] == utf8_lossy(
            #[trigger] before[j],
        ) by {
            assert(known[j] == told[j]);
        }
        if cmdline[i] == 0 {
            args.push(from_utf8_lossy(piece.as_slice()));
            piece = Vec::new();
            assert(texts(args@) =~= told.push(utf8_lossy(before.last())));
            assert(after == before.push(Seq::empty()));
        } else {
            piece.push(cmdline[i]);
            assert(after == before.drop_last().push(piece@));
        }
        assert(texts(args@).push(utf8_lossy(piece@)) =~= args_in(cmdline@.take(i + 1)));
        assert forall|j: int| 0 <= j < after.len() - 1 implies read_as_utf8(
            #[trigger] after[j],
        ) by {
            assert(after[j] == before[j]);
        }
        i = i + 1;
    }
    assert(cmdline@.take(n as int) =~= cmdline@);
    let ghost told = texts(args@);
    args.push(from_utf8_lossy(piece.as_slice()));
    assert(texts(args@) =~= told.push(utf8_lossy(piece@)));
    assert forall|i: int| 0 <= i < args@.len() implies (#[trigger] args@[i])@ == utf8_lossy(
        split_nul(cmdline@)[i],
    ) by {
        assert(texts(args@)[i] == args_in(cmdline@)[i]);
    }
    args
}

/// Reads the arguments of an X server. Where an option is given more than
/// once, the last one counts.
pub fn server_args(args: &Vec<String>) -> (found: ServerArgs)
    ensures
        same_number(found.display, display_of(texts(args@))),
        same_text(found.auth_file, auth_of(texts(args@))),
        same_number(found.on_vt, vt_of(texts(args@))),
        match found.display {
            Some(n) => display_of(texts(args@)) == Some(n as nat),
            None => display_of(texts(args@)) is None,
        },
        match found.on_vt {
            Some(n) => vt_of(texts(args@)) == Some(n as nat),
            None => vt_of(texts(args@)) is None,
        },
        forall|k: int|
            1 <= k < args@.len() && (#[trigger] args@[k])@ == "-auth"@ && (forall|j: int|
                k < j < args@.len() ==> (#[trigger] args@[j])@ != "-auth"@) ==> match found.auth_file {
                Some(s) => k + 1 < args@.len() && s@ == args@[k + 1]@,
                None => k + 1 == args@.len(),
            },
        (forall|k: int| 1 <= k < args@.len() ==> (#[trigger] args@[k])@ != "-auth"@)
            ==> found.auth_file is None,
{
    let ghost all = texts(args@);
    let n: usize = args.len();
    let mut display: Option<u32> = None;
    let mut auth_file: Option<String> = None;
    let mut on_vt: Option<u16> = None;
    let mut i: usize = 1;
    assert(n >= 1 ==> all.take(1).len() == 1);
    while i < n
        invariant
            1 <= i,
            i <= n || i == 1,
            n == args@.len(),
            all == texts(args@),
            i <= n ==> same_number(display, display_of(all.take(i as int))),
            i <= n ==> same_number(on_vt, vt_of(all.take(i as int))),
            i > n ==> display is None && on_vt is None && auth_file is None,
            i <= n ==> match auth_place(all.take(i as int)) {
                Some(k) => 1 <= k < i && same_text(
                    auth_file,
                    if k + 1 < n {
                        Some(all[k + 1])
                    } else {
                        None
                    },
                ),
                None => auth_file is None,
            },
        decreases n - i,
    {
        let ghost next = all.take(i + 1);
        assert(next.drop_last() =~= all.take(i as int));
        assert(next.last() == args@[i as int]@);
        proof {
            reveal_strlit("-auth");
        }
        let arg = chars_of(args[i].as_str());
        assert(arg@ == next.last());
        let len: usize = arg.len();
        if len > 0 && arg[0] == ':' {
            assert(arg@.drop_first() =~= arg@.subrange(1, len as int));
            match parse_number(
                vstd::slice::slice_subrange(arg.as_slice(), 1, len),
                u32::MAX,
            ) {
                Some(v) => {
                    display = Some(v);
                },
                None => {},
            }
        } else if same_chars(&arg, "-auth") {
            auth_file = if i + 1 < n {
                Some(args[i + 1].clone())
            } else {
                None
            };
        } else if len >= 2 && arg[0] == 'v' && arg[1] == 't' {
            assert(arg@.skip(2) =~= arg@.subrange(2, len as int));
            match parse_number(vstd::slice::slice_subrange(arg.as_slice(), 2, len), 65535) {
                Some(v) => {
                    on_vt = Some(v as u16);
                },
                None => {},
            }
        }
        i = i + 1;
    }
    proof {
        if n >= 1 {
            assert(all.take(n as int) =~= all);
        }
    }
    proof {
        assert forall|k: int|
            1 <= k < args@.len() && (#[trigger] args@[k])@ == "-auth"@ && (forall|j: int|
                k < j < args@.len() ==> (#[trigger] args@[j])@ != "-auth"@) implies match auth_file {
            Some(s) => k + 1 < args@.len() && s@ == args@[k + 1]@,
            None => k + 1 == args@.len(),
        } by {
            assert forall|j: int| k < j < all.len() implies #[trigger] all[j] != "-auth"@ by {
                assert(args@[j]@ != "-auth"@);
            }
            law_last_auth_counts(all, k);
        }
        if forall|k: int| 1 <= k < args@.len() ==> (#[trigger] args@[k])@ != "-auth"@ {
            assert forall|k: int| 1 <= k < all.len() implies #[trigger] all[k] != "-auth"@ by {
                assert(args@[k]@ != "-auth"@);
            }
            law_no_auth(all);
        }
    }
    ServerArgs { display, auth_file, on_vt }
}

/// The authority file is what follows the last `-auth` after the program's name,
/// wherever that stands, and there is none if nothing follows it.
pub proof fn law_last_auth_counts(args: Seq<Seq<char>>, k: int)
    requires
        1 <= k < args.len(),
        args[k] == "-auth"@,
        forall|j: int| k < j < args.len() ==> #[trigger] args[j] != "-auth"@,
    ensures
        auth_of(args) == if k + 1 < args.len() {
            Some(args[k + 1])
        } else {
            None
        },
{
    lemma_auth_place(args, k);
}

proof fn lemma_auth_place(args: Seq<Seq<char>>, k: int)
    requires
        1 <= k < args.len(),
        args[k] == "-auth"@,
        forall|j: int| k < j < args.len() ==> #[trigger] args[j] != "-auth"@,
    ensures
        auth_place(args) == Some(k),
    decreases args.len(),
{
    if k < args.len() - 1 {
        assert(args[args.len() - 1] != "-auth"@);
        let front = args.drop_last();
        assert forall|j: int| k < j < front.len() implies #[trigger] front[j] != "-auth"@ by {
            assert(args[j] != "-auth"@);
        }
        lemma_auth_place(front, k);
    }
}

/// Without an `-auth` after the program's name there is no authority file.
pub proof fn law_no_auth(args: Seq<Seq<char>>)
    requires
        forall|j: int| 1 <= j < args.len() ==> #[trigger] args[j] != "-auth"@,
    ensures
        auth_of(args) is None,
    decreases args.len(),
{
    if args.len() > 1 {
        assert(args[args.len() - 1] != "-auth"@);
        let front = args.drop_last();
        assert forall|j: int| 1 <= j < front.len() implies #[trigger] front[j] != "-auth"@ by {
            assert(args[j] != "-auth"@);
        }
        law_no_auth(front);
        assert(auth_place(front) is None) by {
            if auth_place(front) is Some {
                lemma_auth_stands(front);
            }
        }
    }
}

proof fn lemma_auth_stands(args: Seq<Seq<char>>)
    requires
        auth_place(args) is Some,
    ensures
        1 <= auth_place(args)->0 < args.len(),
        args[auth_place(args)->0] == "-auth"@,
    decreases args.len(),
{
    if args.last() != "-auth"@ {
        lemma_auth_stands(args.drop_last());
    }
}

/// The display is the number of the last argument after the program's name that
/// is a colon and a number, wherever that stands.
pub proof fn law_last_display_counts(args: Seq<Seq<char>>, k: int)
    requires
        1 <= k < args.len(),
        args[k].len() > 0 && args[k][0] == ':' && parsed(args[k].skip(1), 0xffff_ffff) is Some,
        forall|j: int|
            k < j < args.len() ==> !((#[trigger] args[j]).len() > 0 && args[j][0] == ':' && parsed(
                args[j].skip(1),
                0xffff_ffff,
            ) is Some),
    ensures
        display_of(args) == parsed(args[k].skip(1), 0xffff_ffff),
    decreases args.len(),
{
    assert(args[k].skip(1) =~= args[k].drop_first());
    if k < args.len() - 1 {
        let last = args[args.len() - 1];
        assert(last.len() > 0 ==> last.skip(1) =~= last.drop_first());
        let front = args.drop_last();
        assert forall|j: int| k < j < front.len() implies !((#[trigger] front[j]).len() > 0
            && front[j][0] == ':' && parsed(front[j].skip(1), 0xffff_ffff) is Some) by {
            assert(front[j] == args[j]);
        }
        law_last_display_counts(front, k);
    }
}

/// Without such an argument there is no display.
pub proof fn law_no_display(args: Seq<Seq<char>>)
    requires
        forall|j: int|
            1 <= j < args.len() ==> !((#[trigger] args[j]).len() > 0 && args[j][0] == ':' && parsed(
                args[j].skip(1),
                0xffff_ffff,
            ) is Some),
    ensures
        display_of(args) is None,
    decreases args.len(),
{
    if args.len() > 1 {
        let last = args[args.len() - 1];
        assert(last.len() > 0 ==> last.skip(1) =~= last.drop_first());
        let front = args.drop_last();
        assert forall|j: int| 1 <= j < front.len() implies !((#[trigger] front[j]).len() > 0
            && front[j][0] == ':' && parsed(front[j].skip(1), 0xffff_ffff) is Some) by {
            assert(front[j] == args[j]);
        }
        law_no_display(front);
    }
}

/// The terminal is the number of the last argument after the program's name that
/// is `vt` and a number, wherever that stands.
pub proof fn law_last_vt_counts(args: Seq<Seq<char>>, k: int)
    requires
        1 <= k < args.len(),
        args[k].len() > 1 && args[k][0] == 'v' && args[k][1] == 't' && parsed(
            args[k].skip(2),
            0xffff,
        ) is Some,
        forall|j: int|
            k < j < args.len() ==> !((#[trigger] args[j]).len() > 1 && args[j][0] == 'v'
                && args[j][1] == 't' && parsed(args[j].skip(2), 0xffff) is Some),
    ensures
        vt_of(args) == parsed(args[k].skip(2), 0xffff),
    decreases args.len(),
{
    if k < args.len() - 1 {
        let last = args[args.len() - 1];
        assert(!(last.len() > 1 && last[0] == 'v' && last[1] == 't' && parsed(last.skip(2), 0xffff)
            is Some));
        let front = args.drop_last();
        assert forall|j: int| k < j < front.len() implies !((#[trigger] front[j]).len() > 1
            && front[j][0] == 'v' && front[j][1] == 't' && parsed(front[j].skip(2), 0xffff)
            is Some) by {
            assert(front[j] == args[j]);
        }
        law_last_vt_counts(front, k);
    }
}

/// Without such an argument no terminal is named.
pub proof fn law_no_vt(args: Seq<Seq<char>>)
    requires
        forall|j: int|
            1 <= j < args.len() ==> !((#[trigger] args[j]).len() > 1 && args[j][0] == 'v'
                && args[j][1] == 't' && parsed(args[j].skip(2), 0xffff) is Some),
    ensures
        vt_of(args) is None,
    decreases args.len(),
{
    if args.len() > 1 {
        let last = args[args.len() - 1];
        assert(!(last.len() > 1 && last[0] == 'v' && last[1] == 't' && parsed(last.skip(2), 0xffff)
            is Some));
        let front = args.drop_last();
        assert forall|j: int| 1 <= j < front.len() implies !((#[trigger] front[j]).len() > 1
            && front[j][0] == 'v' && front[j][1] == 't' && parsed(front[j].skip(2), 0xffff)
            is Some) by {
            assert(front[j] == args[j]);
        }
        law_no_vt(front);
    }
}


/// Whether a server with these arguments is the one on terminal `vt`. A server
/// that names no display has the first one.
pub fn judge(args: ServerArgs, vt: u16) -> (verdict: Verdict)
    ensures
        match verdict {
            Verdict::Elsewhere => args.on_vt is Some && args.on_vt != Some(vt),
            Verdict::Here(s) => args.on_vt == Some(vt) && s.display == args.display.unwrap_or(0)
                && s.auth_file == args.auth_file,
            Verdict::IfHoldsTty(s) => args.on_vt is None && s.display == args.display.unwrap_or(0)
                && s.auth_file == args.auth_file,
        },
{
    let server = XServer { display: args.display.unwrap_or(0), auth_file: args.auth_file };
    match args.on_vt {
        Some(n) => if n == vt {
            Verdict::Here(server)
        } else {
            Verdict::Elsewhere
        },
        None => Verdict::IfHoldsTty(server),
    }
}

/// The server with these arguments.
pub open spec fn is_server_of(s: XServer, args: Seq<Seq<char>>) -> bool {
    &&& s.display == (match display_of(args) {
        Some(n) => n,
        None => 0,
    })
    &&& same_text(s.auth_file, auth_of(args))
}

/// Whether the X server with the given command line is the one on terminal
/// `vt`.
pub fn examine(vt: u16, cmdline: &[u8]) -> (verdict: Verdict)
    ensures
        match verdict {
            Verdict::Elsewhere => vt_of(args_in(cmdline@)) is Some && vt_of(args_in(cmdline@))
                != Some(vt as nat),
            Verdict::Here(s) => vt_of(args_in(cmdline@)) == Some(vt as nat) && is_server_of(
                s,
                args_in(cmdline@),
            ),
            Verdict::IfHoldsTty(s) => vt_of(args_in(cmdline@)) is None && is_server_of(
                s,
                args_in(cmdline@),
            ),
        },
        args_read_as_utf8(cmdline@),
{
    let args = split_cmdline(cmdline);
    judge(server_args(&args), vt)
}

/// Whether one of a process's open files is the terminal's device.
pub fn holds_tty(links: &Vec<String>, tty: &String) -> (yes: bool)
    ensures
        yes == texts(links@).contains(tty@),
        yes == exists|i: int| 0 <= i < links@.len() && (#[trigger] links@[i])@ == tty@,
{
    let n: usize = links.len();
    let mut i: usize = 0;
    while i < n
        invariant
            i <= n,
            n == links@.len(),
            forall|j: int| 0 <= j < i ==> texts(links@)[j] != tty@,
            forall|j: int| 0 <= j < i ==> (#[trigger] links@[j])@ != tty@,
        decreases n - i,
    {
        assert(texts(links@)[i as int] == links@[i as int]@);
        if links[i] == *tty {
            assert(texts(links@)[i as int] == tty@);
            return true;
        }
        i = i + 1;
    }
    assert(texts(links@).len() == n);
    false
}

/// The process is an X server whose command line is known.
pub open spec fn is_candidate(p: ProcessView) -> bool {
    names_pid(p.name) && names_x_server(p.comm) && p.cmdline is Some
}

/// Display and authority file of the X server on terminal `vt`, if the process
/// is that: its arguments name the terminal, or they name none and it holds the
/// terminal open.
pub open spec fn server_in(p: ProcessView, vt: u16) -> Option<(nat, Option<Seq<char>>)> {
    if !is_candidate(p) {
        None
    } else {
        let args = args_in(p.cmdline->0);
        let here = match vt_of(args) {
            Some(n) => n == vt,
            None => p.links.contains("/dev/tty"@ + decimal(vt as nat)),
        };
        if here {
            Some(
                (
                    match display_of(args) {
                        Some(n) => n,
                        None => 0,
                    },
                    auth_of(args),
                ),
            )
        } else {
            None
        }
    }
}

/// The first of the processes that is the X server on terminal `vt`.
pub open spec fn first_server(ps: Seq<ProcessView>, vt: u16) -> Option<(nat, Option<Seq<char>>)>
    decreases ps.len(),
{
    if ps.len() == 0 {
        None
    } else {
        match first_server(ps.drop_last(), vt) {
            Some(s) => Some(s),
            None => server_in(ps.last(), vt),
        }
    }
}

/// The views of a list of processes.
pub open spec fn views(ps: Seq<Process>) -> Seq<ProcessView> {
    ps.map_values(|p: Process| p@)
}

/// `found` is the server that `spec` describes, if any.
pub open spec fn same_server(
    found: Option<XServer>,
    spec: Option<(nat, Option<Seq<char>>)>,
) -> bool {
    match found {
        Some(s) => spec matches Some((display, auth)) && s.display == display && same_text(
            s.auth_file,
            auth,
        ),
        None => spec is None,
    }
}

/// The X server on terminal `vt`, if the process is that.
fn server_of(p: &Process, vt: u16) -> (found: Option<XServer>)
    ensures
        same_server(found, server_in(p@, vt)),
        is_candidate(p@) ==> args_read_as_utf8(p@.cmdline->0),
{
    if !is_pid(p.name.as_str()) || !is_x_server(p.comm.as_str()) {
        return None;
    }
    match &p.cmdline {
        None => None,
        Some(cmdline) => match examine(vt, cmdline.as_slice()) {
            Verdict::Elsewhere => None,
            Verdict::Here(server) => Some(server),
            Verdict::IfHoldsTty(server) => if holds_tty(&p.links, &tty_path(vt)) {
                Some(server)
            } else {
                None
            },
        },
    }
}

/// The X server on terminal `vt`: the first of the processes that is one.
pub fn find_server(vt: u16, processes: &Vec<Process>) -> (found: Option<XServer>)
    ensures
        same_server(found, first_server(views(processes@), vt)),
        forall|i: int|
            0 <= i < processes@.len() && is_candidate((#[trigger] processes@[i])@)
                && first_server(views(processes@).take(i), vt) is None ==> args_read_as_utf8(
                processes@[i]@.cmdline->0,
            ),
{
    let ghost all = views(processes@);
    let n: usize = processes.len();
    let mut i: usize = 0;
    assert(first_server(all.take(0), vt) is None);
    while i < n
        invariant
            i <= n,
            n == processes@.len(),
            all == views(processes@),
            first_server(all.take(i as int), vt) is None,
            forall|j: int|
                0 <= j < i && is_candidate((#[trigger] processes@[j])@) ==> args_read_as_utf8(
                    processes@[j]@.cmdline->0,
                ),
        decreases n - i,
    {
        assert(all.take(i + 1).drop_last() =~= all.take(i as int));
        assert(all.take(i + 1).last() == processes@[i as int]@);
        let found = server_of(&processes[i], vt);
        if found.is_some() {
            proof {
                lemma_first_stays(all, vt, i + 1);
                assert forall|j: int| i < j <= n implies first_server(#[trigger] all.take(j), vt)
                    is Some by {
                    lemma_first_stays(all.take(j), vt, i + 1);
                    assert(all.take(j).take(i + 1) =~= all.take(i + 1));
                }
            }
            return found;
        }
        i = i + 1;
    }
    assert(all.take(n as int) =~= all);
    None
}

/// A server that is found stays the first, whatever processes follow.
proof fn lemma_first_stays(ps: Seq<ProcessView>, vt: u16, k: int)
    requires
        0 <= k <= ps.len(),
        first_server(ps.take(k), vt) is Some,
    ensures
        first_server(ps, vt) == first_server(ps.take(k), vt),
    decreases ps.len(),
{
    if k == ps.len() {
        assert(ps.take(k) =~= ps);
    } else {
        assert(ps.drop_last().take(k) =~= ps.take(k));
        lemma_first_stays(ps.drop_last(), vt, k);
    }
}

/// Where process `k` is the X server of the terminal and none before it is, it
/// is the one that is found.
pub proof fn law_first_server(ps: Seq<ProcessView>, vt: u16, k: int)
    requires
        0 <= k < ps.len(),
        server_in(ps[k], vt) is Some,
        forall|i: int| 0 <= i < k ==> server_in(#[trigger] ps[i], vt) is None,
    ensures
        first_server(ps, vt) == server_in(ps[k], vt),
{
    law_no_server(ps.take(k), vt);
    assert(ps.take(k + 1).drop_last() =~= ps.take(k));
    lemma_first_stays(ps, vt, k + 1);
}

/// Where no process is the X server of the terminal, none is found.
pub proof fn law_no_server(ps: Seq<ProcessView>, vt: u16)
    requires
        forall|i: int| 0 <= i < ps.len() ==> server_in(#[trigger] ps[i], vt) is None,
    ensures
        first_server(ps, vt) is None,
    decreases ps.len(),
{
    if ps.len() > 0 {
        assert(server_in(ps[ps.len() - 1], vt) is None);
        law_no_server(ps.drop_last(), vt);
    }
}

/// The socket of the X server for a display.
pub fn socket_path(display: u32) -> (path: String)
    ensures
        path@ == "/tmp/.X11-unix/X"@ + decimal(display as nat),
{
    numbered("/tmp/.X11-unix/X", display)
}

/// What to authenticate with: the cookie, or nothing.
pub fn auth_info(cookie: Option<(Vec<u8>, Vec<u8>)>) -> (auth: (Vec<u8>, Vec<u8>))
    ensures
        match cookie {
            Some(c) => auth == c,
            None => auth.0@ == Seq::<u8>::empty() && auth.1@ == Seq::<u8>::empty(),
        },
{
    match cookie {
        Some(c) => c,
        None => (Vec::new(), Vec::new()),
    }
}

/// Pieces with a zero byte between each two of them.
pub open spec fn join_nul(pieces: Seq<Seq<u8>>) -> Seq<u8>
    decreases pieces.len(),
{
    if pieces.len() == 0 {
        Seq::empty()
    } else if pieces.len() == 1 {
        pieces[0]
    } else {
        join_nul(pieces.drop_last()).push(0) + pieces.last()
    }
}

/// No piece that a command line splits into holds a zero byte, and joined again
/// they are the command line.
pub proof fn law_split_join(s: Seq<u8>)
    ensures
        split_nul(s).len() > 0,
        forall|i: int| 0 <= i < split_nul(s).len() ==> !(#[trigger] split_nul(s)[i]).contains(0),
        join_nul(split_nul(s)) == s,
    decreases s.len(),
{
    let now = split_nul(s);
    if s.len() == 0 {
        assert(join_nul(now) =~= s);
    } else {
        let before = split_nul(s.drop_last());
        law_split_join(s.drop_last());
        assert(s.drop_last().push(s.last()) =~= s);
        if s.last() == 0 {
            assert(now.drop_last() =~= before);
            assert(join_nul(now) =~= s);
        } else {
            let last = before.last();
            assert(now.drop_last() =~= before.drop_last());
            assert(!before[before.len() - 1].contains(0));
            assert(!now.last().contains(0)) by {
                if now.last().contains(0) {
                    let k = now.last().index_of(0);
                    assert(k < last.len());
                    assert(last[k] == 0);
                }
            }
            assert forall|i: int| 0 <= i < now.len() implies !(#[trigger] now[i]).contains(0) by {
                if i < now.len() - 1 {
                    assert(now[i] == before[i]);
                }
            }
            if before.len() == 1 {
                assert(join_nul(now) =~= s);
            } else {
                assert(join_nul(now) =~= join_nul(before).push(s.last()));
            }
        }
    }
}

/// A command line made of arguments splits into these arguments.
pub proof fn law_join_split(pieces: Seq<Seq<u8>>)
    requires
        pieces.len() > 0,
        forall|i: int| 0 <= i < pieces.len() ==> !(#[trigger] pieces[i]).contains(0),
    ensures
        split_nul(join_nul(pieces)) == pieces,
    decreases pieces.len(),
{
    let last = pieces.last();
    assert(last == pieces[pieces.len() - 1]);
    if pieces.len() == 1 {
        assert(Seq::empty() + last =~= last);
        lemma_split_tail(Seq::empty(), last);
        assert(split_nul(last) =~= pieces);
    } else {
        let front = pieces.drop_last();
        law_join_split(front);
        let a = join_nul(front).push(0);
        assert(a.drop_last() =~= join_nul(front));
        lemma_split_tail(a, last);
        assert(split_nul(a) =~= front.push(Seq::empty()));
        assert(split_nul(a + last) =~= pieces);
    }
}

/// Bytes without a zero byte extend the last piece.
proof fn lemma_split_tail(a: Seq<u8>, b: Seq<u8>)
    requires
        !b.contains(0),
    ensures
        split_nul(a).len() > 0,
        split_nul(a + b) == split_nul(a).drop_last().push(split_nul(a).last() + b),
    decreases b.len(),
{
    law_split_join(a);
    if b.len() == 0 {
        assert(a + b =~= a);
        assert(split_nul(a).last() + b =~= split_nul(a).last());
        assert(split_nul(a).drop_last().push(split_nul(a).last()) =~= split_nul(a));
    } else {
        let front = b.drop_last();
        assert(!front.contains(0)) by {
            if front.contains(0) {
                assert(b[front.index_of(0)] == 0);
            }
        }
        assert(b[b.len() - 1] != 0);
        lemma_split_tail(a, front);
        assert((a + b).drop_last() =~= a + front);
        let last = split_nul(a).last();
        assert((last + front).push(b.last()) =~= last + b);
        assert(split_nul(a + b) =~= split_nul(a).drop_last().push(last + b));
    }
}

/// Bytes without a zero byte are one argument; after a zero byte, they are one
/// more.
pub proof fn law_split_at_nul(a: Seq<u8>, b: Seq<u8>)
    requires
        !b.contains(0),
    ensures
        split_nul(b) == seq![b],
        split_nul(a.push(0) + b) == split_nul(a).push(b),
{
    assert(Seq::<u8>::empty() + b =~= b);
    lemma_split_tail(Seq::empty(), b);
    assert(split_nul(b) =~= seq![b]);
    assert(a.push(0).drop_last() =~= a);
    lemma_split_tail(a.push(0), b);
    assert(Seq::<u8>::empty() + b =~= b);
    assert(split_nul(a.push(0) + b) =~= split_nul(a).push(b));
}

/// Each argument is the text of its piece of the command line.
pub proof fn law_args_in_order(cmdline: Seq<u8>, i: int)
    requires
        0 <= i < split_nul(cmdline).len(),
    ensures
        args_in(cmdline).len() == split_nul(cmdline).len(),
        args_in(cmdline)[i] == utf8_lossy(split_nul(cmdline)[i]),
{
}

/// The texts and views of a list are those of its elements, in order.
pub proof fn law_views_in_order(args: Seq<String>, ps: Seq<Process>, i: int)
    ensures
        texts(args).len() == args.len(),
        0 <= i < args.len() ==> texts(args)[i] == args[i]@,
        views(ps).len() == ps.len(),
        0 <= i < ps.len() ==> {
            let v = views(ps)[i];
            &&& v.name == ps[i].name@
            &&& v.comm == ps[i].comm@
            &&& v.cmdline is Some <==> ps[i].cmdline is Some
            &&& ps[i].cmdline is Some ==> v.cmdline->0 == ps[i].cmdline->0@
            &&& v.links == texts(ps[i].links@)
        },
{
}

/// A process is the X server of terminal `vt` exactly when its name is a number,
/// its program is called `Xorg` or `X`, its command line is known, and that
/// names the terminal, or names none while the process holds the terminal open.
pub proof fn law_server_of_terminal(p: ProcessView, vt: u16)
    ensures
        server_in(p, vt) is Some <==> {
            &&& forall|i: int| 0 <= i < p.name.len() ==> '0' <= #[trigger] p.name[i] <= '9'
            &&& trimmed(p.comm) == "Xorg"@ || trimmed(p.comm) == "X"@
            &&& p.cmdline is Some
            &&& {
                ||| vt_of(args_in(p.cmdline->0)) == Some(vt as nat)
                ||| vt_of(args_in(p.cmdline->0)) is None && exists|i: int|
                    0 <= i < p.links.len() && #[trigger] p.links[i] == "/dev/tty"@ + decimal(
                        vt as nat,
                    )
            }
        },
        server_in(p, vt) is Some ==> {
            let args = args_in(p.cmdline->0);
            &&& display_of(args) is Some ==> (server_in(p, vt)->0).0 == display_of(args)->0
            &&& display_of(args) is None ==> (server_in(p, vt)->0).0 == 0
            &&& (server_in(p, vt)->0).1 == auth_of(args)
        },
{
    assert(names_pid(p.name) <==> forall|i: int|
        0 <= i < p.name.len() ==> '0' <= #[trigger] p.name[i] <= '9') by {
        if !names_pid(p.name) {
            let i = choose|i: int| 0 <= i < p.name.len() && !is_digit(#[trigger] p.name[i]);
            assert(!('0' <= p.name[i] <= '9'));
        }
    }
    let tty = "/dev/tty"@ + decimal(vt as nat);
    assert(p.links.contains(tty) <==> exists|i: int|
        0 <= i < p.links.len() && #[trigger] p.links[i] == tty);
}

/// What is found agrees with what is described in the display and in the text of
/// the authority file.
pub proof fn law_found_as_described(
    found: Option<XServer>,
    spec: Option<(nat, Option<Seq<char>>)>,
)
    ensures
        same_server(found, spec) <==> {
            &&& found is Some <==> spec is Some
            &&& found is Some ==> found->0.display == (spec->0).0
            &&& found is Some ==> (found->0.auth_file is Some <==> (spec->0).1 is Some)
            &&& found is Some && found->0.auth_file is Some ==> found->0.auth_file->0@
                == (spec->0).1->0
        },
{
}

} // verus!
