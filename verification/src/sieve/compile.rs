//! What the manager has from outside: the compiler of Sieve scripts and the
//! source of random names. Nothing in this file is proved; each function
//! states what is taken on trust.
use vstd::prelude::*;

verus! {

/// Why a script did not compile.
#[derive(Debug, PartialEq, Eq)]
pub struct CompileFailure {
    /// Whether the source is longer than the compiler accepts.
    pub too_long: bool,
    /// The compiler's message.
    pub message: String,
}

/// The mathematical value of a `CompileFailure`.
pub ghost struct CompileFailureView {
    pub too_long: bool,
    pub message: Seq<char>,
}

impl View for CompileFailure {
    type V = CompileFailureView;

    open spec fn view(&self) -> CompileFailureView {
        CompileFailureView { too_long: self.too_long, message: self.message@ }
    }
}

/// What came of a compilation, by its value.
pub open spec fn outcome_view(outcome: Result<Option<Vec<u8>>, CompileFailure>) -> Result<
    Option<Seq<u8>>,
    CompileFailureView,
> {
    match outcome {
        Ok(Some(compiled)) => Ok(Some(compiled@)),
        Ok(None) => Ok(None),
        Err(failure) => Err(failure@),
    }
}

/// Whether the script was turned down as too long.
pub open spec fn is_too_long(outcome: Result<Option<Seq<u8>>, CompileFailureView>) -> bool {
    outcome matches Err(failure) && failure.too_long
}

/// What the Sieve compiler, set to take sources of up to `max_script_size`
/// bytes and left at its defaults otherwise, makes of a source: the compiled
/// script in its serialized form (`None` where it could not be serialized),
/// or the reason why it did not compile.
pub uninterp spec fn compiled_form(max_script_size: usize, source: Seq<u8>) -> Result<
    Option<Seq<u8>>,
    CompileFailureView,
>;

/// Compiles a script with `sieve::Compiler::compile` and turns what it gives
/// into bytes with `bincode::serialize`.
///
/// Taken on trust: the outcome depends on the size limit and the source
/// alone, and a source longer than the limit is turned down as too long,
/// which is the compiler's first test.
#[verifier::external_body]
pub(crate) fn compile(max_script_size: usize, source: &Vec<u8>) -> (outcome: Result<Option<Vec<u8>>, CompileFailure>)
    ensures
        outcome_view(outcome) == compiled_form(max_script_size, source@),
        source@.len() > max_script_size ==> is_too_long(outcome_view(outcome)),
{
    match sieve::Compiler::new().with_max_script_size(max_script_size).compile(source) {
        Ok(script) => Ok(bincode::serialize(&script).ok()),
        Err(err) => Err(
            CompileFailure {
                too_long: matches!(err.error_type(), sieve::compiler::ErrorType::ScriptTooLong),
                message: err.to_string(),
            },
        ),
    }
}

/// Whether the character is an ASCII letter or digit.
pub open spec fn is_alphanumeric(c: char) -> bool {
    ('a' <= c && c <= 'z') || ('A' <= c && c <= 'Z') || ('0' <= c && c <= '9')
}

/// Whether the name is one that `random_name` can give: `length` ASCII
/// letters and digits.
pub open spec fn is_random_name(name: Seq<char>, length: usize) -> bool {
    name.len() == length && forall|i: int| 0 <= i < name.len() ==> is_alphanumeric(#[trigger] name[i])
}

/// Draws a name of `length` characters from the thread's random generator
/// with `rand::distributions::Alphanumeric`.
///
/// Taken on trust: the name has that many characters, each an ASCII letter
/// or digit. Which ones is left open: two calls may differ.
#[verifier::external_body]
pub(crate) fn random_name(length: usize) -> (name: String)
    ensures
        is_random_name(name@, length),
{
    rand::Rng::sample_iter(rand::thread_rng(), rand::distributions::Alphanumeric)
        .take(length)
        .map(char::from)
        .collect()
}

} // verus!
