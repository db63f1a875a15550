//! Parse error module.
//!
//! `OptParseError` is one failure of the tokenizer; `OptParseErrors` an
//! ordered collection of them, empty exactly on success.  Every constructor
//! pins the kind and the carried text; the `message` methods render the
//! text shown to the user, and their contracts give that text character by
//! character.

use vstd::prelude::*;

use crate::HelpVersion;

verus! {

/// The kind of a parse error, a flat taxonomy; the two message kinds carry
/// pre-rendered help or version text through the same channel.
#[derive(Debug, Clone, Copy, PartialEq, Eq, Structural)]
pub enum OptParseErrorKind {
    HelpMessage,
    VersionMessage,
    InvalidOption,
    MissingOption,
    InvalidOptionArgument,
    UnexpectedOptionArgument,
    MissingOptionArgument,
    UnexpectedArgument,
    MissingArgument,
    InvalidSubcommand,
    MissingSubcommand,
    AmbiguousOption,
    AmbiguousSubcommand,
}

/// View of a single parse error.
#[verifier::ext_equal]
pub struct ErrV {
    pub kind: OptParseErrorKind,
    pub desc1: Seq<char>,
    pub desc2: Option<Seq<char>>,
}

/// An error view carrying one description.
pub open spec fn err1(kind: OptParseErrorKind, desc1: Seq<char>) -> ErrV {
    ErrV { kind, desc1, desc2: None }
}

/// An error view carrying two descriptions.
pub open spec fn err2(kind: OptParseErrorKind, desc1: Seq<char>, desc2: Seq<char>) -> ErrV {
    ErrV { kind, desc1, desc2: Some(desc2) }
}

/// Single option parse error.
#[derive(Debug, PartialEq, Eq)]
pub struct OptParseError {
    kind: OptParseErrorKind,
    desc1: String,
    desc2: Option<String>,
}

impl View for OptParseError {
    type V = ErrV;

    closed spec fn view(&self) -> ErrV {
        ErrV {
            kind: self.kind,
            desc1: self.desc1@,
            desc2: match self.desc2 {
                Some(s) => Some(s@),
                None => None,
            },
        }
    }
}

impl DeepView for OptParseError {
    type V = ErrV;

    open spec fn deep_view(&self) -> ErrV {
        self.view()
    }
}

impl HelpVersion for OptParseError {
    fn is_help(&self) -> (r: bool)
        ensures
            r == (self@.kind == OptParseErrorKind::HelpMessage),
    {
        self.kind == OptParseErrorKind::HelpMessage
    }

    fn is_version(&self) -> (r: bool)
        ensures
            r == (self@.kind == OptParseErrorKind::VersionMessage),
    {
        self.kind == OptParseErrorKind::VersionMessage
    }
}

impl OptParseError {
    /// The kind of this error.
    pub fn kind(&self) -> (r: OptParseErrorKind)
        ensures
            r == self@.kind,
    {
        self.kind
    }

    /// The first description: the offending text.
    pub fn desc1_str(&self) -> (r: &str)
        ensures
            r@ == self@.desc1,
    {
        self.desc1.as_str()
    }

    fn new_p1(a_kind: OptParseErrorKind, a_desc1: &str) -> (r: Self)
        ensures
            r@ == err1(a_kind, a_desc1@),
    {
        Self { kind: a_kind, desc1: a_desc1.to_owned(), desc2: None }
    }

    fn new_p2(a_kind: OptParseErrorKind, a_desc1: &str, a_desc2: &str) -> (r: Self)
        ensures
            r@ == err2(a_kind, a_desc1@, a_desc2@),
    {
        let mut r = Self::new_p1(a_kind, a_desc1);
        r.desc2 = Some(a_desc2.to_owned());
        r
    }

    /// Pre-rendered help text, passed through the error channel.
    pub fn help_message(desc1: &str) -> (r: Self)
        ensures
            r@ == err1(OptParseErrorKind::HelpMessage, desc1@),
    {
        Self::new_p1(OptParseErrorKind::HelpMessage, desc1)
    }

    /// Pre-rendered version text, passed through the error channel.
    pub fn version_message(desc1: &str) -> (r: Self)
        ensures
            r@ == err1(OptParseErrorKind::VersionMessage, desc1@),
    {
        Self::new_p1(OptParseErrorKind::VersionMessage, desc1)
    }

    /// The named option is not in the table.
    pub fn invalid_option(desc1: &str) -> (r: Self)
        ensures
            r@ == err1(OptParseErrorKind::InvalidOption, desc1@),
    {
        Self::new_p1(OptParseErrorKind::InvalidOption, desc1)
    }

    /// A required option did not occur.
    pub fn missing_option(desc1: &str) -> (r: Self)
        ensures
            r@ == err1(OptParseErrorKind::MissingOption, desc1@),
    {
        Self::new_p1(OptParseErrorKind::MissingOption, desc1)
    }

    /// The option's value could not be used.
    pub fn invalid_option_argument(desc1: &str, desc2: &str) -> (r: Self)
        ensures
            r@ == err2(OptParseErrorKind::InvalidOptionArgument, desc1@, desc2@),
    {
        Self::new_p2(OptParseErrorKind::InvalidOptionArgument, desc1, desc2)
    }

    /// A value was supplied to an option that takes none.
    pub fn unexpected_option_argument(desc1: &str, desc2: &str) -> (r: Self)
        ensures
            r@ == err2(OptParseErrorKind::UnexpectedOptionArgument, desc1@, desc2@),
    {
        Self::new_p2(OptParseErrorKind::UnexpectedOptionArgument, desc1, desc2)
    }

    /// An option that requires a value stood last, with none following.
    pub fn missing_option_argument(desc1: &str) -> (r: Self)
        ensures
            r@ == err1(OptParseErrorKind::MissingOptionArgument, desc1@),
    {
        Self::new_p1(OptParseErrorKind::MissingOptionArgument, desc1)
    }

    /// A free argument occurred where none was expected.
    pub fn unexpected_argument(desc1: &str) -> (r: Self)
        ensures
            r@ == err1(OptParseErrorKind::UnexpectedArgument, desc1@),
    {
        Self::new_p1(OptParseErrorKind::UnexpectedArgument, desc1)
    }

    /// A required free argument did not occur.
    pub fn missing_argument(desc1: &str) -> (r: Self)
        ensures
            r@ == err1(OptParseErrorKind::MissingArgument, desc1@),
    {
        Self::new_p1(OptParseErrorKind::MissingArgument, desc1)
    }

    /// The named subcommand is not in the universe.
    pub fn invalid_subcommand(desc1: &str) -> (r: Self)
        ensures
            r@ == err1(OptParseErrorKind::InvalidSubcommand, desc1@),
    {
        Self::new_p1(OptParseErrorKind::InvalidSubcommand, desc1)
    }

    /// A subcommand was expected and none was given.
    pub fn missing_subcommand(desc1: &str) -> (r: Self)
        ensures
            r@ == err1(OptParseErrorKind::MissingSubcommand, desc1@),
    {
        Self::new_p1(OptParseErrorKind::MissingSubcommand, desc1)
    }

    /// An abbreviated option name matched several long names.
    pub fn ambiguous_option(desc1: &str, desc2: &str) -> (r: Self)
        ensures
            r@ == err2(OptParseErrorKind::AmbiguousOption, desc1@, desc2@),
    {
        Self::new_p2(OptParseErrorKind::AmbiguousOption, desc1, desc2)
    }

    /// An abbreviated subcommand name matched several candidates.
    pub fn ambiguous_subcommand(desc1: &str, desc2: &str) -> (r: Self)
        ensures
            r@ == err2(OptParseErrorKind::AmbiguousSubcommand, desc1@, desc2@),
    {
        Self::new_p2(OptParseErrorKind::AmbiguousSubcommand, desc1, desc2)
    }
}

/// The fixed text that introduces the message of each error kind.
pub open spec fn kind_tag(k: OptParseErrorKind) -> Seq<char> {
    match k {
        OptParseErrorKind::HelpMessage => Seq::empty(),
        OptParseErrorKind::VersionMessage => Seq::empty(),
        OptParseErrorKind::InvalidOption => "Invalid option"@,
        OptParseErrorKind::MissingOption => "Missing option"@,
        OptParseErrorKind::InvalidOptionArgument => "Invalid option argument"@,
        OptParseErrorKind::UnexpectedOptionArgument => "Unexpected option argument"@,
        OptParseErrorKind::MissingOptionArgument => "Missing option argument"@,
        OptParseErrorKind::UnexpectedArgument => "Unexpected argument"@,
        OptParseErrorKind::MissingArgument => "Missing argument"@,
        OptParseErrorKind::InvalidSubcommand => "Invalid subcommand"@,
        OptParseErrorKind::MissingSubcommand => "Missing subcommand"@,
        OptParseErrorKind::AmbiguousOption => "Ambiguous option"@,
        OptParseErrorKind::AmbiguousSubcommand => "Ambiguous subcommand"@,
    }
}

/// The rendered message of one error: the kind's text, the offending text,
/// and the second description when there is one; a help or version error
/// renders as its carried text alone.
pub open spec fn err_msg(e: ErrV) -> Seq<char> {
    if e.kind == OptParseErrorKind::HelpMessage || e.kind == OptParseErrorKind::VersionMessage {
        e.desc1
    } else {
        kind_tag(e.kind) + ": "@ + e.desc1 + (match e.desc2 {
            Some(d) => ": "@ + d,
            None => Seq::empty(),
        })
    }
}

/// The rendered messages of a collection, joined by single newlines.
pub open spec fn errs_msg(es: Seq<ErrV>) -> Seq<char>
    decreases es.len(),
{
    if es.len() == 0 {
        Seq::empty()
    } else if es.len() == 1 {
        err_msg(es[0])
    } else {
        errs_msg(es.drop_last()) + "\n"@ + err_msg(es.last())
    }
}

impl OptParseError {
    /// The message shown to the user for this error.
    pub fn message(&self) -> (r: String)
        ensures
            r@ == err_msg(self@),
    {
        let tag: &str = match self.kind {
            OptParseErrorKind::HelpMessage => {
                return self.desc1.clone();
            },
            OptParseErrorKind::VersionMessage => {
                return self.desc1.clone();
            },
            OptParseErrorKind::InvalidOption => "Invalid option",
            OptParseErrorKind::MissingOption => "Missing option",
            OptParseErrorKind::InvalidOptionArgument => "Invalid option argument",
            OptParseErrorKind::UnexpectedOptionArgument => "Unexpected option argument",
            OptParseErrorKind::MissingOptionArgument => "Missing option argument",
            OptParseErrorKind::UnexpectedArgument => "Unexpected argument",
            OptParseErrorKind::MissingArgument => "Missing argument",
            OptParseErrorKind::InvalidSubcommand => "Invalid subcommand",
            OptParseErrorKind::MissingSubcommand => "Missing subcommand",
            OptParseErrorKind::AmbiguousOption => "Ambiguous option",
            OptParseErrorKind::AmbiguousSubcommand => "Ambiguous subcommand",
        };
        let mut s = String::from_str(tag);
        s.append(": ");
        s.append(self.desc1.as_str());
        match &self.desc2 {
            Some(d) => {
                s.append(": ");
                s.append(d.as_str());
            },
            None => {},
        }
        proof {
            assert(s@ =~= err_msg(self@));
        }
        s
    }
}

/// Multiple option parse errors, in the order they were found.
#[derive(Debug, PartialEq, Eq)]
pub struct OptParseErrors(Vec<OptParseError>);

impl View for OptParseErrors {
    type V = Seq<ErrV>;

    closed spec fn view(&self) -> Seq<ErrV> {
        self.0.deep_view()
    }
}

impl OptParseErrors {
    /// An empty collection.
    pub fn new() -> (r: OptParseErrors)
        ensures
            r@ =~= Seq::<ErrV>::empty(),
    {
        OptParseErrors(Vec::new())
    }

    /// Whether no error was collected; empty is success.
    pub fn is_empty(&self) -> (r: bool)
        ensures
            r == (self@.len() == 0),
    {
        self.0.is_empty()
    }

    /// How many errors were collected.
    pub fn len(&self) -> (r: usize)
        ensures
            r == self@.len(),
    {
        self.0.len()
    }

    /// Appends one error at the end.
    pub fn push(&mut self, e: OptParseError)
        ensures
            final(self)@ =~= old(self)@.push(e@),
    {
        self.0.push(e)
    }

    /// The collected errors, in order.
    pub fn iter(&self) -> (r: &Vec<OptParseError>)
        ensures
            r.deep_view() == self@,
    {
        &self.0
    }

    /// Wraps an already-collected vector of errors.
    pub(crate) fn from_vec(v: Vec<OptParseError>) -> (r: Self)
        ensures
            r@ == v.deep_view(),
    {
        OptParseErrors(v)
    }

    /// Appends all errors of `other`, in order, at the end.
    pub fn append(&mut self, other: Self)
        ensures
            final(self)@ =~= old(self)@ + other@,
    {
        let mut o = other;
        self.0.append(&mut o.0);
    }

    /// The message shown to the user: the messages of all collected errors,
    /// joined by newlines; empty for an empty collection.
    pub fn message(&self) -> (r: String)
        ensures
            r@ == errs_msg(self@),
    {
        let mut s = String::new();
        let n = self.0.len();
        let mut i: usize = 0;
        proof {
            assert(self@.take(0int) =~= Seq::<ErrV>::empty());
        }
        while i < n
            invariant
                i <= n,
                n == self@.len(),
                n == self.0.len(),
                s@ == errs_msg(self@.take(i as int)),
            decreases n - i,
        {
            if i > 0 {
                s.append("\n");
            }
            let m = self.0[i].message();
            s.append(m.as_str());
            proof {
                let es = self@;
                assert(es.take(i + 1).drop_last() =~= es.take(i as int));
                assert(es.take(i + 1).last() == es[i as int]);
                assert(self.0[i as int].deep_view() == es[i as int]);
                if i == 0 {
                    assert(s@ =~= errs_msg(es.take(i + 1)));
                } else {
                    assert(s@ =~= errs_msg(es.take(i + 1)));
                }
            }
            i += 1;
        }
        proof {
            assert(self@.take(n as int) =~= self@);
        }
        s
    }
}

impl Default for OptParseErrors {
    fn default() -> (r: Self)
        ensures
            r@ =~= Seq::<ErrV>::empty(),
    {
        Self::new()
    }
}

} // verus!
