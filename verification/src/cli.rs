//! What a run of the command line tool does with its arguments.
//!
//! The tool reads its arguments, matches its path patterns against the file
//! system, and reads and writes files. None of that is done here: this
//! module parses the arguments that it is given, and decides, from them and
//! from the number of files that were found, what is to be done.

use vstd::prelude::*;

verus! {

/// Options passed as arguments.
#[derive(Debug)]
pub struct Args {
    pub help: bool,
    pub version: bool,
    pub replace: bool,
    pub files: Vec<String>,
}

/// The mathematical form of [`Args`].
pub struct ArgsView {
    pub help: bool,
    pub version: bool,
    pub replace: bool,
    pub files: Seq<Seq<char>>,
}

impl View for Args {
    type V = ArgsView;

    open spec fn view(&self) -> ArgsView {
        ArgsView {
            help: self.help,
            version: self.version,
            replace: self.replace,
            files: texts(self.files@),
        }
    }
}

/// What the arguments ask for.
#[derive(Clone, Copy, Debug, PartialEq, Eq, Structural)]
pub enum Command {
    /// Print the usage text.
    Usage,
    /// Print the version of the tool.
    Version,
    /// Strip the comments from the files that the path patterns match.
    Strip,
}

/// Where the stripped text of the matched files goes.
#[derive(Clone, Copy, Debug, PartialEq, Eq, Structural)]
pub enum Output {
    /// The text of the one file is printed.
    Print,
    /// Each file is overwritten with its stripped text.
    Replace,
}

/// Why a run ends without stripping any file.
#[derive(Clone, Copy, Debug, PartialEq, Eq, Structural)]
pub enum RunError {
    /// No path pattern was given.
    MissingPath,
    /// The path patterns match no file.
    NoMatchingFile,
    /// Several files are matched and `--replace` was not given.
    ReplaceRequired,
}

/// Why the arguments were not accepted: flags are left that the tool does
/// not know. The cause is what the argument parser reports.
#[derive(Debug)]
pub struct ArgsError {
    pub cause: pico_args::Error,
}

/// The argument parser of `pico_args`, taken as it is: nothing is known of
/// it but what [`pending`] names.
#[verifier::external_type_specification]
#[verifier::external_body]
pub struct ExArguments(pico_args::Arguments);

/// The error of `pico_args`, taken as it is and handed on unread.
#[verifier::external_type_specification]
#[verifier::external_body]
pub struct ExArgumentsError(pico_args::Error);

/// The arguments that a parser holds and has not handed out yet, in order.
/// An argument that is no valid Unicode text stands in it as `None`.
pub uninterp spec fn pending(args: pico_args::Arguments) -> Seq<Option<Seq<char>>>;

/// The strings `items` as texts.
pub open spec fn texts(items: Seq<String>) -> Seq<Seq<char>> {
    Seq::new(items.len(), |i: int| items[i]@)
}

/// The texts `items` as arguments that are all valid Unicode.
pub open spec fn given(items: Seq<Seq<char>>) -> Seq<Option<Seq<char>>> {
    Seq::new(items.len(), |i: int| Some(items[i]))
}

/// The sequence `items` without the first of its elements that is `x`.
pub open spec fn without_first<T>(items: Seq<T>, x: T) -> Seq<T>
    decreases items.len(),
{
    if items.len() == 0 {
        items
    } else if items[0] == x {
        items.drop_first()
    } else {
        seq![items[0]] + without_first(items.drop_first(), x)
    }
}

/// Whether an argument looks like a flag: it begins with a hyphen and is
/// not the hyphen alone, which stands for the standard input.
pub open spec fn is_flag(t: Seq<char>) -> bool {
    t.len() >= 2 && t[0] == '-'
}

/// Whether an argument can be handed out as a path: it is valid Unicode
/// text and does not look like a flag.
pub open spec fn is_free(arg: Option<Seq<char>>) -> bool {
    match arg {
        Some(t) => !is_flag(t),
        None => false,
    }
}

/// What the arguments `items` mean. Each of the three flags is looked for
/// and taken out once. What is left are the paths; if one of them still
/// looks like a flag, the arguments are not accepted.
pub open spec fn parsed(items: Seq<Seq<char>>) -> Option<ArgsView> {
    let files = without_first(
        without_first(without_first(items, "--help"@), "--version"@),
        "--replace"@,
    );
    if forall|i: int| 0 <= i < files.len() ==> !is_flag(#[trigger] files[i]) {
        Some(
            ArgsView {
                help: items.contains("--help"@),
                version: items.contains("--version"@),
                replace: items.contains("--replace"@),
                files,
            },
        )
    } else {
        None
    }
}

/// Makes an argument parser that holds `items`.
///
/// Calls `pico_args::Arguments::from_vec`, which keeps the vector it is
/// given as it is. Nothing of this is proved here.
#[verifier::external_body]
fn arguments_from(items: Vec<String>) -> (args: pico_args::Arguments)
    ensures
        pending(args) == given(texts(items@)),
{
    pico_args::Arguments::from_vec(items.into_iter().map(Into::into).collect())
}

/// Looks for `flag` among the arguments and takes it out.
///
/// Calls `pico_args::Arguments::contains`, which finds the first argument
/// that equals the key, removes that one argument and tells whether there
/// was one. It refuses, in a debug build, a key that does not begin with a
/// hyphen. Nothing of this is proved here.
#[verifier::external_body]
fn take_flag(args: &mut pico_args::Arguments, flag: &'static str) -> (found: bool)
    requires
        flag@.len() > 0,
        flag@[0] == '-',
    ensures
        found == pending(*old(args)).contains(Some(flag@)),
        pending(*final(args)) == without_first(pending(*old(args)), Some(flag@)),
{
    args.contains(flag)
}

/// Hands out the arguments that are left.
///
/// Calls `pico_args::Arguments::free`, which fails if an argument is left
/// that begins with a hyphen and is not the hyphen alone, or one that is no
/// valid Unicode text, and else returns all arguments in order. Nothing of
/// this is proved here.
#[verifier::external_body]
fn free_arguments(args: pico_args::Arguments) -> (res: Result<Vec<String>, pico_args::Error>)
    ensures
        res is Ok <==> forall|i: int|
            0 <= i < pending(args).len() ==> is_free(#[trigger] pending(args)[i]),
        res matches Ok(files) ==> given(texts(files@)) == pending(args),
{
    args.free()
}

/// An element is in a sequence if it is the first or in the rest.
proof fn lemma_contains_first_or_rest<T>(items: Seq<T>, y: T)
    requires
        items.len() > 0,
    ensures
        items.contains(y) == (items[0] == y || items.drop_first().contains(y)),
{
    let rest = items.drop_first();
    if items.contains(y) {
        let i = choose|i: int| 0 <= i < items.len() && items[i] == y;
        if i > 0 {
            assert(rest[i - 1] == y);
        }
    }
    if rest.contains(y) {
        let i = choose|i: int| 0 <= i < rest.len() && rest[i] == y;
        assert(items[i + 1] == y);
    }
}

/// Taking out the first `x` leaves every other element in.
pub proof fn lemma_without_first_keeps<T>(items: Seq<T>, x: T, y: T)
    requires
        x != y,
    ensures
        without_first(items, x).contains(y) == items.contains(y),
    decreases items.len(),
{
    if items.len() > 0 {
        let rest = items.drop_first();
        lemma_contains_first_or_rest(items, y);
        if items[0] != x {
            lemma_without_first_keeps(rest, x, y);
            let kept = seq![items[0]] + without_first(rest, x);
            lemma_contains_first_or_rest(kept, y);
            assert(kept.drop_first() =~= without_first(rest, x));
        }
    }
}

/// Arguments that are all valid Unicode hold a text, and lose their first
/// such text, as the texts themselves do.
proof fn lemma_given(items: Seq<Seq<char>>, x: Seq<char>)
    ensures
        given(items).contains(Some(x)) == items.contains(x),
        without_first(given(items), Some(x)) == given(without_first(items, x)),
    decreases items.len(),
{
    if items.len() > 0 {
        let rest = items.drop_first();
        lemma_given(rest, x);
        lemma_contains_first_or_rest(items, x);
        lemma_contains_first_or_rest(given(items), Some(x));
        assert(given(items).drop_first() =~= given(rest));
        if items[0] != x {
            assert(seq![given(items)[0]] + given(without_first(rest, x)) =~= given(
                seq![items[0]] + without_first(rest, x),
            ));
        }
    } else {
        assert(given(items) =~= Seq::<Option<Seq<char>>>::empty());
    }
}

/// Parses the arguments of the command line, the name of the program left
/// out. The flags `--help`, `--version` and `--replace` may stand anywhere
/// among the paths.
pub fn parse_args(items: Vec<String>) -> (res: Result<Args, ArgsError>)
    ensures
        match res {
            Ok(args) => parsed(texts(items@)) == Some(args@),
            Err(_) => parsed(texts(items@)) is None,
        },
{
    let ghost all = texts(items@);
    let ghost after_help = without_first(all, "--help"@);
    let ghost after_version = without_first(after_help, "--version"@);
    let ghost left = without_first(after_version, "--replace"@);
    proof {
        reveal_strlit("--help");
        reveal_strlit("--version");
        reveal_strlit("--replace");
        assert("--version"@[2] == 'v');
        assert("--replace"@[2] == 'r');
        lemma_given(all, "--help"@);
        lemma_given(after_help, "--version"@);
        lemma_given(after_version, "--replace"@);
        lemma_without_first_keeps(all, "--help"@, "--version"@);
        lemma_without_first_keeps(all, "--help"@, "--replace"@);
        lemma_without_first_keeps(after_help, "--version"@, "--replace"@);
    }
    let mut arguments = arguments_from(items);
    let help = take_flag(&mut arguments, "--help");
    let version = take_flag(&mut arguments, "--version");
    let replace = take_flag(&mut arguments, "--replace");
    proof {
        assert(pending(arguments) == given(left));
        assert forall|i: int| 0 <= i < left.len() implies #[trigger] given(left)[i] == Some(
            left[i],
        ) by {}
    }
    match free_arguments(arguments) {
        Ok(files) => {
            proof {
                assert forall|i: int| 0 <= i < left.len() implies !is_flag(#[trigger] left[i]) by {
                    assert(given(left)[i] == Some(left[i]));
                    assert(is_free(given(left)[i]));
                }
                assert(texts(files@) =~= left) by {
                    assert(given(texts(files@)).len() == given(left).len());
                    assert forall|i: int| 0 <= i < left.len() implies texts(files@)[i]
                        == left[i] by {
                        assert(given(texts(files@))[i] == given(left)[i]);
                    }
                }
            }
            Ok(Args { help, version, replace, files })
        },
        Err(cause) => {
            proof {
                if forall|i: int| 0 <= i < left.len() ==> !is_flag(#[trigger] left[i]) {
                    assert forall|i: int| 0 <= i < given(left).len() implies is_free(
                        #[trigger] given(left)[i],
                    ) by {
                        assert(given(left)[i] == Some(left[i]));
                        assert(!is_flag(left[i]));
                    }
                }
            }
            Err(ArgsError { cause })
        },
    }
}

impl Args {
    /// What these arguments ask for. A request for help goes before one for
    /// the version, and both go before the paths.
    pub open spec fn requested(&self) -> Result<Command, RunError> {
        if self.help {
            Ok(Command::Usage)
        } else if self.version {
            Ok(Command::Version)
        } else if self.files@.len() == 0 {
            Err(RunError::MissingPath)
        } else {
            Ok(Command::Strip)
        }
    }

    /// Decides what these arguments ask for.
    pub fn command(&self) -> (res: Result<Command, RunError>)
        ensures
            res == self.requested(),
    {
        if self.help {
            Ok(Command::Usage)
        } else if self.version {
            Ok(Command::Version)
        } else if self.files.len() == 0 {
            Err(RunError::MissingPath)
        } else {
            Ok(Command::Strip)
        }
    }
}

/// Where the stripped text goes when `matched` files were found. One file
/// is printed unless it is to be replaced; several files can only be
/// replaced.
pub open spec fn output_of(matched: nat, replace: bool) -> Result<Output, RunError> {
    if matched == 0 {
        Err(RunError::NoMatchingFile)
    } else if replace {
        Ok(Output::Replace)
    } else if matched == 1 {
        Ok(Output::Print)
    } else {
        Err(RunError::ReplaceRequired)
    }
}

/// Decides where the stripped text goes when `matched` files were found.
pub fn output_for(matched: usize, replace: bool) -> (res: Result<Output, RunError>)
    ensures
        res == output_of(matched as nat, replace),
{
    if matched == 0 {
        Err(RunError::NoMatchingFile)
    } else if replace {
        Ok(Output::Replace)
    } else if matched == 1 {
        Ok(Output::Print)
    } else {
        Err(RunError::ReplaceRequired)
    }
}

impl RunError {
    /// The sentence that tells the user of this error.
    pub fn message(&self) -> (res: &'static str)
        ensures
            res@ == match *self {
                RunError::MissingPath => "Missing path to an elm file"@,
                RunError::NoMatchingFile => "No matching file found"@,
                RunError::ReplaceRequired => "You must use --replace for multiple elm files"@,
            },
    {
        match self {
            RunError::MissingPath => "Missing path to an elm file",
            RunError::NoMatchingFile => "No matching file found",
            RunError::ReplaceRequired => "You must use --replace for multiple elm files",
        }
    }
}

} // verus!
