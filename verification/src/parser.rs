//! From a raw line to a pipeline: the stages with their arguments, the
//! redirections and the background marker.

use crate::text::{
    join, join_strings, opt_view, same_text, split, split_at_char, split_words, views, words,
};
use vstd::prelude::*;

verus! {

/// Why a line is not a pipeline.
#[derive(Clone, Copy, Debug, PartialEq, Eq, Structural)]
pub enum ParseError {
    /// `<` or `>` is the last token of its stage.
    MissingRedirectionTarget,
    /// A stage other than the first redirects its input.
    MisplacedInputRedirection,
    /// A stage other than the last redirects its output.
    MisplacedOutputRedirection,
    /// `&` stands anywhere but at the very end of the line.
    MisplacedBackgroundMarker,
}

/// The token that sends a pipeline to the background.
pub open spec fn background_marker() -> Seq<char> {
    seq!['&']
}

/// The token that redirects a stage's input.
pub open spec fn input_operator() -> Seq<char> {
    seq!['<']
}

/// The token that redirects a stage's output.
pub open spec fn output_operator() -> Seq<char> {
    seq!['>']
}

/// The names of the commands that the shell runs itself.
pub open spec fn is_builtin_name(name: Seq<char>) -> bool {
    ||| name == seq!['c', 'd']
    ||| name == seq!['e', 'x', 'i', 't']
    ||| name == seq!['h', 'i', 's', 't', 'o', 'r', 'y']
    ||| name == seq!['j', 'o', 'b', 's']
    ||| name == seq!['k', 'i', 'l', 'l']
    ||| name == seq!['p', 'w', 'd']
}

/// A redirection operator whose file name has not been read yet.
#[derive(Clone, Copy, Debug, PartialEq, Eq, Structural)]
pub enum Redirect {
    Input,
    Output,
}

/// What the tokens that follow a command name have said so far.
pub struct Scan {
    /// The ordinary arguments, in order.
    pub argv: Seq<Seq<char>>,
    /// The file named by the last `<`.
    pub input: Option<Seq<char>>,
    /// The file named by the last `>`.
    pub output: Option<Seq<char>>,
    /// A background marker was read.
    pub background: bool,
    /// A background marker was read and another token after it.
    pub stray: bool,
    /// The token read last is a background marker.
    pub marker_last: bool,
    /// The operator read last, while it waits for its file name.
    pub pending: Option<Redirect>,
}

/// The scan before any token.
pub open spec fn scan_start() -> Scan {
    Scan {
        argv: Seq::empty(),
        input: None,
        output: None,
        background: false,
        stray: false,
        marker_last: false,
        pending: None,
    }
}

/// The scan after one more token. A token that follows `<` or `>` is the
/// file name, whatever it is; otherwise `&` is a background marker, `<` and
/// `>` wait for a file name, and anything else is an argument.
pub open spec fn scan_token(before: Scan, token: Seq<char>) -> Scan {
    let stray = before.stray || before.marker_last;
    match before.pending {
        Some(Redirect::Input) => Scan {
            input: Some(token),
            pending: None,
            stray,
            marker_last: false,
            ..before
        },
        Some(Redirect::Output) => Scan {
            output: Some(token),
            pending: None,
            stray,
            marker_last: false,
            ..before
        },
        None => if token == background_marker() {
            Scan { background: true, stray, marker_last: true, ..before }
        } else if token == input_operator() {
            Scan { pending: Some(Redirect::Input), stray, marker_last: false, ..before }
        } else if token == output_operator() {
            Scan { pending: Some(Redirect::Output), stray, marker_last: false, ..before }
        } else {
            Scan { argv: before.argv.push(token), stray, marker_last: false, ..before }
        },
    }
}

/// The scan after the first `n` tokens of a stage, the first of which is the
/// command name.
pub open spec fn scan(tokens: Seq<Seq<char>>, n: nat) -> Scan
    decreases n,
{
    if n <= 1 {
        scan_start()
    } else {
        scan_token(scan(tokens, (n - 1) as nat), tokens[n - 1])
    }
}

/// One command of a pipeline.
#[derive(Debug, PartialEq, Eq)]
pub struct Cmd {
    /// The command name.
    pub cmd: String,
    /// The arguments, in order.
    pub argv: Vec<String>,
    /// The shell runs the command itself.
    pub is_builtin: bool,
    /// The process that runs the command, once it has been started.
    pub pid: Option<u32>,
}

/// A command as plain values.
pub struct CmdView {
    pub cmd: Seq<char>,
    pub argv: Seq<Seq<char>>,
    pub is_builtin: bool,
    pub pid: Option<u32>,
}

impl View for Cmd {
    type V = CmdView;

    open spec fn view(&self) -> CmdView {
        CmdView {
            cmd: self.cmd@,
            argv: views(self.argv@),
            is_builtin: self.is_builtin,
            pid: self.pid,
        }
    }
}

impl CmdView {
    /// The builtin flag follows from the name, and a builtin has no process.
    pub open spec fn wf(self) -> bool {
        &&& self.is_builtin == is_builtin_name(self.cmd)
        &&& self.is_builtin ==> self.pid is None
    }
}

/// What one stage says about the pipeline as a whole.
#[derive(Debug, PartialEq, Eq)]
pub struct ExtraInfo {
    /// The tokens of the stage joined by single spaces, without a background
    /// marker at its end.
    pub repr_string: String,
    /// The file that the stage reads its input from.
    pub input_filename: Option<String>,
    /// The file that the stage writes its output to.
    pub output_filename: Option<String>,
    /// The stage holds a background marker.
    pub is_daemon: bool,
    /// The stage holds a background marker that is not its last token.
    pub stray_marker: bool,
}

/// A stage's remarks as plain values.
pub struct ExtraInfoView {
    pub repr_string: Seq<char>,
    pub input_filename: Option<Seq<char>>,
    pub output_filename: Option<Seq<char>>,
    pub is_daemon: bool,
    pub stray_marker: bool,
}

impl View for ExtraInfo {
    type V = ExtraInfoView;

    open spec fn view(&self) -> ExtraInfoView {
        ExtraInfoView {
            repr_string: self.repr_string@,
            input_filename: opt_view(self.input_filename),
            output_filename: opt_view(self.output_filename),
            is_daemon: self.is_daemon,
            stray_marker: self.stray_marker,
        }
    }
}

/// The stage that a piece of a line between two pipe characters describes:
/// nothing where the piece holds no token, an error where a redirection
/// operator is its last token, else the command with what it says about the
/// pipeline.
pub open spec fn parse_stage(piece: Seq<char>) -> Result<Option<(CmdView, ExtraInfoView)>, ParseError> {
    let tokens = words(piece);
    if tokens.len() == 0 {
        Ok(None)
    } else {
        let end = scan(tokens, tokens.len());
        if end.pending is Some {
            Err(ParseError::MissingRedirectionTarget)
        } else {
            let shown = if end.marker_last {
                tokens.drop_last()
            } else {
                tokens
            };
            Ok(
                Some(
                    (
                        CmdView {
                            cmd: tokens[0],
                            argv: end.argv,
                            is_builtin: is_builtin_name(tokens[0]),
                            pid: None,
                        },
                        ExtraInfoView {
                            repr_string: join(shown, seq![' ']),
                            input_filename: end.input,
                            output_filename: end.output,
                            is_daemon: end.background,
                            stray_marker: end.stray,
                        },
                    ),
                ),
            )
        }
    }
}

/// The outcome of parsing a stage as plain values.
pub open spec fn stage_outcome(r: Result<Option<(Cmd, ExtraInfo)>, ParseError>) -> Result<
    Option<(CmdView, ExtraInfoView)>,
    ParseError,
> {
    match r {
        Ok(Some((cmd, info))) => Ok(Some((cmd@, info@))),
        Ok(None) => Ok(None),
        Err(e) => Err(e),
    }
}

/// Decides whether the shell runs the command `name` itself.
pub fn builtin_name(name: &str) -> (b: bool)
    ensures
        b == is_builtin_name(name@),
{
    proof {
        reveal_strlit("cd");
        reveal_strlit("exit");
        reveal_strlit("history");
        reveal_strlit("jobs");
        reveal_strlit("kill");
        reveal_strlit("pwd");
        assert("cd"@ =~= seq!['c', 'd']);
        assert("exit"@ =~= seq!['e', 'x', 'i', 't']);
        assert("history"@ =~= seq!['h', 'i', 's', 't', 'o', 'r', 'y']);
        assert("jobs"@ =~= seq!['j', 'o', 'b', 's']);
        assert("kill"@ =~= seq!['k', 'i', 'l', 'l']);
        assert("pwd"@ =~= seq!['p', 'w', 'd']);
    }
    same_text(name, "cd") || same_text(name, "exit") || same_text(name, "history") || same_text(
        name,
        "jobs",
    ) || same_text(name, "kill") || same_text(name, "pwd")
}

impl Cmd {
    /// Parses the piece of a line between two pipe characters.
    pub fn new(cmd_str: &str) -> (r: Result<Option<(Cmd, ExtraInfo)>, ParseError>)
        ensures
            stage_outcome(r) == parse_stage(cmd_str@),
    {
        let mut tokens = split_words(cmd_str);
        let n = tokens.len();
        if n == 0 {
            return Ok(None);
        }
        let ghost all = views(tokens@);
        let cmd = tokens[0].clone();
        let is_builtin = builtin_name(cmd.as_str());
        let mut argv: Vec<String> = Vec::new();
        let mut input_filename: Option<String> = None;
        let mut output_filename: Option<String> = None;
        let mut is_daemon = false;
        let mut stray_marker = false;
        let mut marker_last = false;
        let mut i: usize = 1;
        proof {
            reveal_strlit("&");
            reveal_strlit("<");
            reveal_strlit(">");
            assert("&"@ =~= background_marker());
            assert("<"@ =~= input_operator());
            assert(">"@ =~= output_operator());
            assert(views(argv@) =~= Seq::<Seq<char>>::empty());
        }
        while i < n
            invariant
                n == tokens.len(),
                all == views(tokens@),
                all == words(cmd_str@),
                1 <= i <= n,
                "&"@ == background_marker(),
                "<"@ == input_operator(),
                ">"@ == output_operator(),
                scan(all, i as nat) == (Scan {
                    argv: views(argv@),
                    input: opt_view(input_filename),
                    output: opt_view(output_filename),
                    background: is_daemon,
                    stray: stray_marker,
                    marker_last,
                    pending: None,
                }),
            decreases n - i,
        {
            let ghost before = scan(all, i as nat);
            let ghost seen = views(argv@);
            assert(all[i as int] == tokens@[i as int]@);
            assert(scan(all, (i + 1) as nat) == scan_token(before, all[i as int]));
            let token = tokens[i].as_str();
            if marker_last {
                stray_marker = true;
            }
            if same_text(token, "&") {
                is_daemon = true;
                marker_last = true;
                i += 1;
            } else if same_text(token, "<") {
                marker_last = false;
                if i + 1 < n {
                    assert(all[i + 1] == tokens@[i + 1]@);
                    assert(scan(all, (i + 2) as nat) == scan_token(
                        scan(all, (i + 1) as nat),
                        all[i + 1],
                    ));
                    input_filename = Some(tokens[i + 1].clone());
                    i += 2;
                } else {
                    return Err(ParseError::MissingRedirectionTarget);
                }
            } else if same_text(token, ">") {
                marker_last = false;
                if i + 1 < n {
                    assert(all[i + 1] == tokens@[i + 1]@);
                    assert(scan(all, (i + 2) as nat) == scan_token(
                        scan(all, (i + 1) as nat),
                        all[i + 1],
                    ));
                    output_filename = Some(tokens[i + 1].clone());
                    i += 2;
                } else {
                    return Err(ParseError::MissingRedirectionTarget);
                }
            } else {
                marker_last = false;
                argv.push(tokens[i].clone());
                assert(views(argv@) =~= seen.push(all[i as int]));
                i += 1;
            }
        }
        if marker_last {
            tokens.pop();
            assert(views(tokens@) =~= all.drop_last());
        }
        proof {
            reveal_strlit(" ");
            assert(" "@ =~= seq![' ']);
        }
        let repr_string = join_strings(&tokens, " ");
        Ok(
            Some(
                (
                    Cmd { cmd, argv, is_builtin, pid: None },
                    ExtraInfo {
                        repr_string,
                        input_filename,
                        output_filename,
                        is_daemon,
                        stray_marker,
                    },
                ),
            ),
        )
    }
}

/// A pipeline: the commands of one line, connected from left to right.
#[derive(Debug, PartialEq, Eq)]
pub struct CmdLine {
    /// The stages, in order.
    pub cmds: Vec<Cmd>,
    /// The line as it is shown in listings.
    pub repr_string: String,
    /// The file that the first stage reads from.
    pub input_filename: Option<String>,
    /// The file that the last stage writes to.
    pub output_filename: Option<String>,
    /// The pipeline runs in the background.
    pub is_daemon: bool,
    /// The pipeline has been started and is not known to have ended.
    pub running: bool,
    /// The pipeline has not been through a listing of the job table yet.
    pub newly_added: bool,
}

/// A pipeline as plain values.
pub struct CmdLineView {
    pub cmds: Seq<CmdView>,
    pub repr_string: Seq<char>,
    pub input_filename: Option<Seq<char>>,
    pub output_filename: Option<Seq<char>>,
    pub is_daemon: bool,
    pub running: bool,
    pub newly_added: bool,
}

/// The commands of `v` as plain values, in order.
pub open spec fn cmd_views(v: Seq<Cmd>) -> Seq<CmdView> {
    Seq::new(v.len(), |i: int| v[i]@)
}

impl View for CmdLine {
    type V = CmdLineView;

    open spec fn view(&self) -> CmdLineView {
        CmdLineView {
            cmds: cmd_views(self.cmds@),
            repr_string: self.repr_string@,
            input_filename: opt_view(self.input_filename),
            output_filename: opt_view(self.output_filename),
            is_daemon: self.is_daemon,
            running: self.running,
            newly_added: self.newly_added,
        }
    }
}

impl CmdLineView {
    /// Every stage is well formed.
    pub open spec fn wf(self) -> bool {
        forall|i: int| 0 <= i < self.cmds.len() ==> (#[trigger] self.cmds[i]).wf()
    }
}

/// The character that separates the stages of a line.
pub open spec fn pipe_char() -> char {
    '|'
}

/// The text that separates the stages in a pipeline's display string.
pub open spec fn pipe_separator() -> Seq<char> {
    seq![' ', '|', ' ']
}

/// The rule that the stage in piece `i` breaks, if it breaks one: only the
/// first piece may redirect the input, only the last may redirect the output,
/// and a background marker may only be the last token of the last piece.
pub open spec fn violation(pieces: Seq<Seq<char>>, i: int) -> Option<ParseError> {
    match parse_stage(pieces[i]) {
        Ok(Some((_, info))) => if info.input_filename is Some && i != 0 {
            Some(ParseError::MisplacedInputRedirection)
        } else if info.output_filename is Some && i != pieces.len() - 1 {
            Some(ParseError::MisplacedOutputRedirection)
        } else if info.stray_marker || (info.is_daemon && i != pieces.len() - 1) {
            Some(ParseError::MisplacedBackgroundMarker)
        } else {
            None
        },
        _ => None,
    }
}

/// The rule broken by the first of the first `n` pieces that breaks one.
pub open spec fn first_violation(pieces: Seq<Seq<char>>, n: nat) -> Option<ParseError>
    decreases n,
{
    if n == 0 {
        None
    } else {
        match first_violation(pieces, (n - 1) as nat) {
            Some(e) => Some(e),
            None => violation(pieces, n - 1),
        }
    }
}

/// The commands of the first `n` pieces, in order; a piece without a token
/// gives none.
pub open spec fn stages(pieces: Seq<Seq<char>>, n: nat) -> Seq<CmdView>
    decreases n,
{
    if n == 0 {
        Seq::empty()
    } else {
        match parse_stage(pieces[n - 1]) {
            Ok(Some((cmd, _))) => stages(pieces, (n - 1) as nat).push(cmd),
            _ => stages(pieces, (n - 1) as nat),
        }
    }
}

/// The display strings of the stages of the first `n` pieces, in order.
pub open spec fn stage_reprs(pieces: Seq<Seq<char>>, n: nat) -> Seq<Seq<char>>
    decreases n,
{
    if n == 0 {
        Seq::empty()
    } else {
        match parse_stage(pieces[n - 1]) {
            Ok(Some((_, info))) => stage_reprs(pieces, (n - 1) as nat).push(info.repr_string),
            _ => stage_reprs(pieces, (n - 1) as nat),
        }
    }
}

/// What the stage in `piece` says about the pipeline, if there is a stage.
pub open spec fn stage_info(piece: Seq<char>) -> Option<ExtraInfoView> {
    match parse_stage(piece) {
        Ok(Some((_, info))) => Some(info),
        _ => None,
    }
}

/// The pipeline that a line describes.
///
/// The line is cut at every pipe character and each piece is parsed as a
/// stage. A redirection operator without a file name fails first, wherever it
/// stands. Then the first piece that breaks a placement rule fails with that
/// rule. Otherwise the pipeline holds the stages of the pieces that have a
/// token, the input file of the first piece, the output file and the
/// background flag of the last piece, and the display strings of its stages
/// joined by `" | "`.
pub open spec fn parse_line(line: Seq<char>) -> Result<CmdLineView, ParseError> {
    let pieces = split(line, pipe_char());
    let n = pieces.len();
    if exists|i: int| 0 <= i < n && parse_stage(#[trigger] pieces[i]) is Err {
        Err(ParseError::MissingRedirectionTarget)
    } else {
        match first_violation(pieces, n) {
            Some(e) => Err(e),
            None => Ok(
                CmdLineView {
                    cmds: stages(pieces, n),
                    repr_string: join(stage_reprs(pieces, n), pipe_separator()),
                    input_filename: match stage_info(pieces[0]) {
                        Some(info) => info.input_filename,
                        None => None,
                    },
                    output_filename: match stage_info(pieces[n - 1]) {
                        Some(info) => info.output_filename,
                        None => None,
                    },
                    is_daemon: match stage_info(pieces[n - 1]) {
                        Some(info) => info.is_daemon,
                        None => false,
                    },
                    running: false,
                    newly_added: true,
                },
            ),
        }
    }
}

/// The outcome of parsing a line as plain values.
pub open spec fn line_outcome(r: Result<CmdLine, ParseError>) -> Result<CmdLineView, ParseError> {
    match r {
        Ok(line) => Ok(line@),
        Err(e) => Err(e),
    }
}

impl CmdLine {
    /// Parses a raw line into a pipeline.
    pub fn new(cmd_line: &str) -> (r: Result<CmdLine, ParseError>)
        ensures
            line_outcome(r) == parse_line(cmd_line@),
            r matches Ok(line) ==> line@.wf(),
    {
        let cmd_vec = split_at_char(cmd_line, '|');
        let ghost pieces = split(cmd_line@, pipe_char());
        proof {
            crate::text::lemma_split_join(cmd_line@, pipe_char());
        }
        let n = cmd_vec.len();
        let mut cmds: Vec<Cmd> = Vec::new();
        let mut reprs: Vec<String> = Vec::new();
        let mut input_filename: Option<String> = None;
        let mut output_filename: Option<String> = None;
        let mut is_daemon = false;
        let mut broken: Option<ParseError> = None;
        let mut i: usize = 0;
        proof {
            assert(cmd_views(cmds@) =~= stages(pieces, 0));
            assert(views(reprs@) =~= stage_reprs(pieces, 0));
        }
        while i < n
            invariant
                pieces == views(cmd_vec@),
                pieces == split(cmd_line@, pipe_char()),
                n == cmd_vec.len(),
                n >= 1,
                i <= n,
                forall|k: int| 0 <= k < i ==> parse_stage(#[trigger] pieces[k]) is Ok,
                broken == first_violation(pieces, i as nat),
                cmd_views(cmds@) == stages(pieces, i as nat),
                forall|k: int| 0 <= k < cmds.len() ==> (#[trigger] cmds@[k]@).wf(),
                views(reprs@) == stage_reprs(pieces, i as nat),
                opt_view(input_filename) == if i > 0 {
                    match stage_info(pieces[0]) {
                        Some(info) => info.input_filename,
                        None => None,
                    }
                } else {
                    None
                },
                opt_view(output_filename) == if i == n {
                    match stage_info(pieces[n - 1]) {
                        Some(info) => info.output_filename,
                        None => None,
                    }
                } else {
                    None
                },
                is_daemon == if i == n {
                    match stage_info(pieces[n - 1]) {
                        Some(info) => info.is_daemon,
                        None => false,
                    }
                } else {
                    false
                },
            decreases n - i,
        {
            let ghost done = cmd_views(cmds@);
            let ghost shown = views(reprs@);
            assert(pieces[i as int] == cmd_vec@[i as int]@);
            match Cmd::new(cmd_vec[i].as_str()) {
                Err(e) => {
                    assert(parse_stage(pieces[i as int]) is Err);
                    return Err(ParseError::MissingRedirectionTarget);
                },
                Ok(None) => {},
                Ok(Some((cmd, info))) => {
                    let last = i == n - 1;
                    if broken.is_none() {
                        if info.input_filename.is_some() && i != 0 {
                            broken = Some(ParseError::MisplacedInputRedirection);
                        } else if info.output_filename.is_some() && !last {
                            broken = Some(ParseError::MisplacedOutputRedirection);
                        } else if info.stray_marker || (info.is_daemon && !last) {
                            broken = Some(ParseError::MisplacedBackgroundMarker);
                        }
                    }
                    if i == 0 {
                        input_filename = info.input_filename;
                    }
                    if last {
                        output_filename = info.output_filename;
                        is_daemon = info.is_daemon;
                    }
                    reprs.push(info.repr_string);
                    cmds.push(cmd);
                    assert(cmd_views(cmds@) =~= done.push(cmd@));
                    assert(views(reprs@) =~= shown.push(info@.repr_string));
                },
            }
            i += 1;
        }
        match broken {
            Some(e) => Err(e),
            None => {
                proof {
                    reveal_strlit(" | ");
                    assert(" | "@ =~= pipe_separator());
                }
                let repr_string = join_strings(&reprs, " | ");
                let line = CmdLine {
                    cmds,
                    repr_string,
                    input_filename,
                    output_filename,
                    is_daemon,
                    running: false,
                    newly_added: true,
                };
                assert forall|k: int| 0 <= k < line@.cmds.len() implies (#[trigger] line@.cmds[k]).wf() by {
                    assert(line@.cmds[k] == cmds@[k]@);
                }
                Ok(line)
            },
        }
    }
}

/// Where the first `n` pieces break no rule, none of them breaks one.
proof fn lemma_no_violation(pieces: Seq<Seq<char>>, n: nat, i: int)
    requires
        first_violation(pieces, n) is None,
        0 <= i < n,
    ensures
        violation(pieces, i) is None,
    decreases n,
{
    if i < n - 1 {
        lemma_no_violation(pieces, (n - 1) as nat, i);
    }
}

/// In a line that is a pipeline, every redirection and the background marker
/// stand where they may: only the first piece redirects the input, only the
/// last redirects the output or holds the marker, and the marker has no
/// token behind it.
pub proof fn lemma_placement(line: Seq<char>, i: int)
    requires
        parse_line(line) is Ok,
        0 <= i < split(line, pipe_char()).len(),
    ensures
        match stage_info(split(line, pipe_char())[i]) {
            Some(info) => {
                &&& info.input_filename is Some ==> i == 0
                &&& info.output_filename is Some ==> i == split(line, pipe_char()).len() - 1
                &&& info.is_daemon ==> i == split(line, pipe_char()).len() - 1
                &&& !info.stray_marker
            },
            None => true,
        },
{
    let pieces = split(line, pipe_char());
    lemma_no_violation(pieces, pieces.len(), i);
}

/// What a scan knows of markers: one that was read last is the last token
/// and follows no pending operator; one that is not stray was read last.
pub proof fn lemma_scan_markers(tokens: Seq<Seq<char>>, n: nat)
    requires
        n <= tokens.len(),
    ensures
        scan(tokens, n).marker_last ==> n >= 2 && tokens[n - 1] == background_marker() && scan(
            tokens,
            (n - 1) as nat,
        ).pending is None,
        scan(tokens, n).background && !scan(tokens, n).stray ==> scan(tokens, n).marker_last,
    decreases n,
{
    if n > 1 {
        lemma_scan_markers(tokens, (n - 1) as nat);
    }
}

/// A pipeline that runs in the background ends in the marker: `&` is the last
/// token of the line's last piece, and the display string of that stage
/// leaves it out.
pub proof fn lemma_background_marker_is_last(line: Seq<char>)
    requires
        parse_line(line) matches Ok(pipeline) && pipeline.is_daemon,
    ensures
        ({
            let tokens = words(split(line, pipe_char()).last());
            &&& tokens.len() >= 2
            &&& tokens.last() == background_marker()
            &&& stage_info(split(line, pipe_char()).last()) matches Some(info)
            &&& info.repr_string == join(tokens.drop_last(), seq![' '])
        }),
{
    let pieces = split(line, pipe_char());
    let tokens = words(pieces.last());
    crate::text::lemma_split_join(line, pipe_char());
    lemma_placement(line, pieces.len() - 1);
    lemma_scan_markers(tokens, tokens.len());
}

/// Every stage of a pipeline has a name: a token, with a character in it and
/// no white space. A piece without a token gives no stage.
pub proof fn lemma_stages_have_names(pieces: Seq<Seq<char>>, n: nat, k: int)
    requires
        n <= pieces.len(),
        0 <= k < stages(pieces, n).len(),
    ensures
        stages(pieces, n)[k].cmd.len() > 0,
        forall|j: int|
            0 <= j < stages(pieces, n)[k].cmd.len() ==> !crate::text::is_whitespace(
                #[trigger] stages(pieces, n)[k].cmd[j],
            ),
        stages(pieces, n)[k].wf(),
        stages(pieces, n).len() <= n,
    decreases n,
{
    if n > 0 {
        let before = stages(pieces, (n - 1) as nat);
        if k < before.len() {
            lemma_stages_have_names(pieces, (n - 1) as nat, k);
        } else {
            crate::text::lemma_words_are_solid(pieces[n - 1]);
            lemma_stages_count(pieces, (n - 1) as nat);
        }
        lemma_stages_count(pieces, n);
    }
}

/// There are no more stages than pieces.
proof fn lemma_stages_count(pieces: Seq<Seq<char>>, n: nat)
    ensures
        stages(pieces, n).len() <= n,
    decreases n,
{
    if n > 0 {
        lemma_stages_count(pieces, (n - 1) as nat);
    }
}

} // verus!
