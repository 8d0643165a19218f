//! The arguments of the game.

use vstd::prelude::*;
use vstd::string::StringExecFns;
use crate::text;

verus! {

/// What the arguments ask for.
pub struct Args {
    /// Whether a recorded trace is replayed. The inner value is the trace to
    /// replay; `None` is the newest.
    pub replay: Option<Option<String>>,
    /// The recording that takes the place of the microphone.
    pub replay_audio: Option<String>,
    /// Whether the window stays after the last replayed frame.
    pub hold: bool,
    /// Whether the session starts without passing through the main menu.
    pub autostart: bool,
}

/// Arguments as mathematical values.
pub struct ArgsView {
    pub replay: Option<Option<Seq<char>>>,
    pub replay_audio: Option<Seq<char>>,
    pub hold: bool,
    pub autostart: bool,
    /// Arguments that mean nothing.
    pub ignored: Seq<Seq<char>>,
}

/// Why arguments are refused.
#[derive(Clone, Copy, PartialEq, Eq, Structural, Debug)]
pub enum ArgsError {
    /// A recording was announced and not named.
    MissingPath,
    /// Both a trace and a recording are to be replayed.
    Exclusive,
}

/// The outcome of reading arguments: what they ask for, and those that mean
/// nothing, which are reported whatever the outcome.
pub struct Parsed {
    pub outcome: Result<Args, ArgsError>,
    pub ignored: Vec<String>,
}

/// The text of an optional path.
pub open spec fn path_text(path: Option<String>) -> Option<Seq<char>> {
    match path {
        Some(p) => Some(p@),
        None => None,
    }
}

impl Args {
    /// The arguments as a mathematical value, with the ignored ones beside them.
    pub open spec fn with(self, ignored: Seq<String>) -> ArgsView {
        ArgsView {
            replay: match self.replay {
                Some(path) => Some(path_text(path)),
                None => None,
            },
            replay_audio: path_text(self.replay_audio),
            hold: self.hold,
            autostart: self.autostart,
            ignored: text::contents(ignored),
        }
    }
}

/// Whether a token can be a path: a flag cannot.
pub open spec fn names_path(token: Seq<char>) -> bool {
    !text::begins(token, "--"@)
}

/// Whether token `i` is there and can be a path.
pub open spec fn path_at(tokens: Seq<Seq<char>>, i: int) -> bool {
    i < tokens.len() && names_path(tokens[i])
}

/// What the tokens from `i` on make of `so_far`: a flag sets what it names, and
/// takes the token after it along where that is its path. The second part is
/// false where a recording is announced and not named.
pub open spec fn read(tokens: Seq<Seq<char>>, i: int, so_far: ArgsView) -> (ArgsView, bool)
    decreases tokens.len() - i,
{
    if i < 0 || i >= tokens.len() {
        (so_far, true)
    } else if tokens[i] == "--replay"@ {
        if path_at(tokens, i + 1) {
            read(tokens, i + 2, ArgsView { replay: Some(Some(tokens[i + 1])), ..so_far })
        } else {
            read(tokens, i + 1, ArgsView { replay: Some(None), ..so_far })
        }
    } else if tokens[i] == "--replay-audio"@ {
        if path_at(tokens, i + 1) {
            read(tokens, i + 2, ArgsView { replay_audio: Some(tokens[i + 1]), ..so_far })
        } else {
            (so_far, false)
        }
    } else if tokens[i] == "--hold"@ {
        read(tokens, i + 1, ArgsView { hold: true, ..so_far })
    } else if tokens[i] == "--autostart"@ {
        read(tokens, i + 1, ArgsView { autostart: true, ..so_far })
    } else {
        read(tokens, i + 1, ArgsView { ignored: so_far.ignored.push(tokens[i]), ..so_far })
    }
}

/// The arguments before any token was read.
pub open spec fn nothing_read() -> ArgsView {
    ArgsView {
        replay: None,
        replay_audio: None,
        hold: false,
        autostart: false,
        ignored: Seq::empty(),
    }
}

fn is_path(args: &Vec<String>, i: usize) -> (yes: bool)
    ensures
        yes == path_at(text::contents(args@), i as int),
{
    i < args.len() && !text::starts_with(args[i].as_str(), "--")
}

/// Reads the arguments, the name of the program not among them. A trace and a
/// recording exclude each other; of a flag that is given twice the last counts.
pub fn parse_from(args: &Vec<String>) -> (parsed: Parsed)
    ensures
        ({
            let (asked, complete) = read(text::contents(args@), 0, nothing_read());
            &&& text::contents(parsed.ignored@) == asked.ignored
            &&& match parsed.outcome {
                Ok(got) => {
                    &&& complete
                    &&& asked.replay is None || asked.replay_audio is None
                    &&& got.with(parsed.ignored@) == asked
                },
                Err(ArgsError::MissingPath) => !complete,
                Err(ArgsError::Exclusive) => complete && asked.replay is Some
                    && asked.replay_audio is Some,
            }
        }),
{
    let mut got = Args { replay: None, replay_audio: None, hold: false, autostart: false };
    let mut ignored: Vec<String> = Vec::new();
    let ghost tokens = text::contents(args@);
    let mut i: usize = 0;
    assert(text::contents(ignored@) =~= Seq::empty());
    while i < args.len()
        invariant
            i <= args.len(),
            tokens == text::contents(args@),
            read(tokens, i as int, got.with(ignored@)) == read(tokens, 0, nothing_read()),
        decreases args.len() - i,
    {
        assert(tokens[i as int] == args@[i as int]@);
        let arg = args[i].as_str();
        if text::same(arg, "--replay") {
            if is_path(args, i + 1) {
                got.replay = Some(Some(args[i + 1].clone()));
                i = i + 2;
            } else {
                got.replay = Some(None);
                i = i + 1;
            }
        } else if text::same(arg, "--replay-audio") {
            if !is_path(args, i + 1) {
                return Parsed { outcome: Err(ArgsError::MissingPath), ignored };
            }
            got.replay_audio = Some(args[i + 1].clone());
            i = i + 2;
        } else if text::same(arg, "--hold") {
            got.hold = true;
            i = i + 1;
        } else if text::same(arg, "--autostart") {
            got.autostart = true;
            i = i + 1;
        } else {
            let ghost before = ignored@;
            ignored.push(args[i].clone());
            assert(text::contents(ignored@) =~= text::contents(before).push(tokens[i as int]));
            i = i + 1;
        }
    }
    if got.replay.is_some() && got.replay_audio.is_some() {
        Parsed { outcome: Err(ArgsError::Exclusive), ignored }
    } else {
        Parsed { outcome: Ok(got), ignored }
    }
}

/// What a refusal of the arguments is reported as.
pub open spec fn refusal(error: ArgsError) -> Seq<char> {
    match error {
        ArgsError::MissingPath => "coach-game: --replay-audio requires a path argument"@,
        ArgsError::Exclusive =>
            "coach-game: --replay and --replay-audio are mutually exclusive\n--replay replays a UX trace (no engine); --replay-audio swaps the mic (engine runs)"@,
    }
}

/// What a refusal of the arguments is reported as.
pub fn refusal_text(error: ArgsError) -> (text: &'static str)
    ensures
        text@ == refusal(error),
{
    match error {
        ArgsError::MissingPath => "coach-game: --replay-audio requires a path argument",
        ArgsError::Exclusive =>
            "coach-game: --replay and --replay-audio are mutually exclusive\n--replay replays a UX trace (no engine); --replay-audio swaps the mic (engine runs)",
    }
}

/// How the game runs.
pub enum Mode {
    /// A recorded trace is replayed.
    Replay { path: Option<String>, hold: bool },
    /// A live session, with a recording in place of the microphone where one is
    /// given.
    Live { replay_audio: Option<String>, autostart: bool },
}

/// How the game runs on these arguments. A replay has its own flow and never
/// passes through the menu: starting automatically means nothing there.
pub fn mode(args: Args) -> (mode: Mode)
    ensures
        mode == (match args.replay {
            Some(path) => Mode::Replay { path, hold: args.hold },
            None => Mode::Live { replay_audio: args.replay_audio, autostart: args.autostart },
        }),
{
    match args.replay {
        Some(path) => Mode::Replay { path, hold: args.hold },
        None => Mode::Live { replay_audio: args.replay_audio, autostart: args.autostart },
    }
}

/// Whether no path among the arguments is a flag.
pub open spec fn no_flag_is_a_path(a: ArgsView) -> bool {
    &&& a.replay matches Some(Some(path)) ==> names_path(path)
    &&& a.replay_audio matches Some(path) ==> names_path(path)
}

/// A flag is never swallowed as the path of the flag before it.
pub proof fn law_no_flag_is_a_path(tokens: Seq<Seq<char>>, i: int, so_far: ArgsView)
    requires
        no_flag_is_a_path(so_far),
    ensures
        no_flag_is_a_path(read(tokens, i, so_far).0),
    decreases tokens.len() - i,
{
    if 0 <= i < tokens.len() {
        if tokens[i] == "--replay"@ {
            if path_at(tokens, i + 1) {
                law_no_flag_is_a_path(
                    tokens,
                    i + 2,
                    ArgsView { replay: Some(Some(tokens[i + 1])), ..so_far },
                );
            } else {
                law_no_flag_is_a_path(tokens, i + 1, ArgsView { replay: Some(None), ..so_far });
            }
        } else if tokens[i] == "--replay-audio"@ {
            if path_at(tokens, i + 1) {
                law_no_flag_is_a_path(
                    tokens,
                    i + 2,
                    ArgsView { replay_audio: Some(tokens[i + 1]), ..so_far },
                );
            }
        } else if tokens[i] == "--hold"@ {
            law_no_flag_is_a_path(tokens, i + 1, ArgsView { hold: true, ..so_far });
        } else if tokens[i] == "--autostart"@ {
            law_no_flag_is_a_path(tokens, i + 1, ArgsView { autostart: true, ..so_far });
        } else {
            law_no_flag_is_a_path(
                tokens,
                i + 1,
                ArgsView { ignored: so_far.ignored.push(tokens[i]), ..so_far },
            );
        }
    }
}

/// What was asked for stays asked for, whatever follows.
pub proof fn law_flags_are_kept(tokens: Seq<Seq<char>>, i: int, so_far: ArgsView)
    ensures
        so_far.replay is Some ==> read(tokens, i, so_far).0.replay is Some,
        so_far.replay_audio is Some ==> read(tokens, i, so_far).0.replay_audio is Some,
        so_far.hold ==> read(tokens, i, so_far).0.hold,
        so_far.autostart ==> read(tokens, i, so_far).0.autostart,
    decreases tokens.len() - i,
{
    if 0 <= i < tokens.len() {
        if tokens[i] == "--replay"@ {
            if path_at(tokens, i + 1) {
                law_flags_are_kept(
                    tokens,
                    i + 2,
                    ArgsView { replay: Some(Some(tokens[i + 1])), ..so_far },
                );
            } else {
                law_flags_are_kept(tokens, i + 1, ArgsView { replay: Some(None), ..so_far });
            }
        } else if tokens[i] == "--replay-audio"@ {
            if path_at(tokens, i + 1) {
                law_flags_are_kept(
                    tokens,
                    i + 2,
                    ArgsView { replay_audio: Some(tokens[i + 1]), ..so_far },
                );
            }
        } else if tokens[i] == "--hold"@ {
            law_flags_are_kept(tokens, i + 1, ArgsView { hold: true, ..so_far });
        } else if tokens[i] == "--autostart"@ {
            law_flags_are_kept(tokens, i + 1, ArgsView { autostart: true, ..so_far });
        } else {
            law_flags_are_kept(
                tokens,
                i + 1,
                ArgsView { ignored: so_far.ignored.push(tokens[i]), ..so_far },
            );
        }
    }
}

/// A token can be a path unless it begins with two dashes.
pub proof fn law_which_tokens_are_paths(token: Seq<char>)
    ensures
        names_path(token) <==> token.len() < 2 || token[0] != '-' || token[1] != '-',
{
    reveal_strlit("--");
    let dashes = "--"@;
    if token.len() >= 2 {
        let first = token.take(2);
        assert(first[0] == token[0] && first[1] == token[1]);
        if token[0] == '-' && token[1] == '-' {
            assert(first =~= dashes);
        }
    }
}

/// What each token means: the flags set what they name, the replay flags take the
/// path that stands behind them, and everything else is put aside. A recording that
/// is not named ends the reading.
pub proof fn law_tokens_mean_what_they_name(tokens: Seq<Seq<char>>, i: int, so_far: ArgsView)
    requires
        0 <= i < tokens.len(),
    ensures
        ({
            let path = i + 1 < tokens.len() && (tokens[i + 1].len() < 2 || tokens[i + 1][0] != '-'
                || tokens[i + 1][1] != '-');
            &&& tokens[i] == "--replay"@ && path ==> read(tokens, i, so_far) == read(
                tokens,
                i + 2,
                ArgsView { replay: Some(Some(tokens[i + 1])), ..so_far },
            )
            &&& tokens[i] == "--replay"@ && !path ==> read(tokens, i, so_far) == read(
                tokens,
                i + 1,
                ArgsView { replay: Some(None), ..so_far },
            )
            &&& tokens[i] == "--replay-audio"@ && path ==> read(tokens, i, so_far) == read(
                tokens,
                i + 2,
                ArgsView { replay_audio: Some(tokens[i + 1]), ..so_far },
            )
            &&& tokens[i] == "--replay-audio"@ && !path ==> read(tokens, i, so_far) == (
                so_far,
                false,
            )
            &&& tokens[i] == "--hold"@ ==> read(tokens, i, so_far) == read(
                tokens,
                i + 1,
                ArgsView { hold: true, ..so_far },
            )
            &&& tokens[i] == "--autostart"@ ==> read(tokens, i, so_far) == read(
                tokens,
                i + 1,
                ArgsView { autostart: true, ..so_far },
            )
            &&& tokens[i] != "--replay"@ && tokens[i] != "--replay-audio"@ && tokens[i] != "--hold"@
                && tokens[i] != "--autostart"@ ==> read(tokens, i, so_far) == read(
                tokens,
                i + 1,
                ArgsView { ignored: so_far.ignored.push(tokens[i]), ..so_far },
            )
        }),
{
    reveal_strlit("--replay");
    reveal_strlit("--replay-audio");
    reveal_strlit("--hold");
    reveal_strlit("--autostart");
    assert("--replay"@.len() == 8 && "--replay-audio"@.len() == 14 && "--hold"@.len() == 6
        && "--autostart"@.len() == 11);
    if i + 1 < tokens.len() {
        law_which_tokens_are_paths(tokens[i + 1]);
    }
}

/// Behind the last token the reading is complete and changes nothing.
pub proof fn law_reading_ends_with_the_tokens(tokens: Seq<Seq<char>>, i: int, so_far: ArgsView)
    requires
        i >= tokens.len(),
    ensures
        read(tokens, i, so_far) == (so_far, true),
{
}

/// Before the first token nothing is asked for and nothing put aside.
pub proof fn law_nothing_is_asked_at_first()
    ensures
        nothing_read().replay is None,
        nothing_read().replay_audio is None,
        !nothing_read().hold,
        !nothing_read().autostart,
        nothing_read().ignored.len() == 0,
{
}

/// Arguments stand for what they hold, path by path and flag by flag.
pub proof fn law_arguments_stand_for_themselves(a: Args, ignored: Seq<String>, i: int)
    ensures
        a.replay is None <==> a.with(ignored).replay is None,
        a.replay matches Some(None) ==> a.with(ignored).replay == Some(None::<Seq<char>>),
        a.replay matches Some(Some(p)) ==> a.with(ignored).replay == Some(Some(p@)),
        a.replay_audio is None ==> a.with(ignored).replay_audio is None,
        a.replay_audio matches Some(p) ==> a.with(ignored).replay_audio == Some(p@),
        a.with(ignored).hold == a.hold,
        a.with(ignored).autostart == a.autostart,
        a.with(ignored).ignored.len() == ignored.len(),
        0 <= i < ignored.len() ==> a.with(ignored).ignored[i] == ignored[i]@,
{
}

/// Every refusal has its own words.
pub proof fn law_refusals_have_their_words(error: ArgsError)
    ensures
        error is MissingPath ==> refusal(error)
            == "coach-game: --replay-audio requires a path argument"@,
        error is Exclusive ==> refusal(error)
            == "coach-game: --replay and --replay-audio are mutually exclusive\n--replay replays a UX trace (no engine); --replay-audio swaps the mic (engine runs)"@,
{
}

}
