//! Panics as values.

use vstd::prelude::*;
use vstd::string::*;

verus! {

/// Why a coroutine did not produce a value.
///
/// `P` is the object that the coroutine panicked with.
pub enum PanicError<P> {
    /// Panic raised by this library.
    Static(&'static str),
    /// Panic raised by the coroutine. `text` is what the object reads as if it is a string, and a
    /// rendering of its type if it is not.
    Unwind { object: P, text: Result<String, String> },
}

/// Object to resume a panic with.
pub enum Panic<P> {
    Message(&'static str),
    Object(P),
}

/// The words of a panic, or the type of an object that has none.
pub open spec fn panic_text<P>(err: PanicError<P>) -> Result<Seq<char>, Seq<char>> {
    match err {
        PanicError::Static(text) => Ok(text@),
        PanicError::Unwind { object: _, text: Ok(text) } => Ok(text@),
        PanicError::Unwind { object: _, text: Err(kind) } => Err(kind@),
    }
}

impl<P> PanicError<P> {
    /// Converts this error to the object that resumes the panic.
    pub fn into_boxed(self) -> (panic: Panic<P>)
        ensures
            panic == match self {
                PanicError::Static(text) => Panic::Message(text),
                PanicError::Unwind { object, text: _ } => Panic::Object(object),
            },
    {
        match self {
            PanicError::Unwind { object, text: _ } => Panic::Object(object),
            PanicError::Static(text) => Panic::Message(text),
        }
    }

    /// Returns the words of this panic, or the type of the object if it has none.
    pub fn as_str(&self) -> (text: Result<&str, &str>)
        ensures
            text is Ok <==> panic_text(*self) is Ok,
            text is Ok ==> text->Ok_0@ == panic_text(*self)->Ok_0,
            text is Err ==> text->Err_0@ == panic_text(*self)->Err_0,
    {
        match self {
            PanicError::Static(text) => Ok(*text),
            PanicError::Unwind { object: _, text } => match text {
                Ok(text) => Ok(text.as_str()),
                Err(kind) => Err(kind.as_str()),
            },
        }
    }
}

/// Wraps panic of a joined task or coroutine.
pub struct JoinError<P> {
    err: PanicError<P>,
}

impl<P> View for JoinError<P> {
    type V = PanicError<P>;

    closed spec fn view(&self) -> PanicError<P> {
        self.err
    }
}

impl<P> JoinError<P> {
    /// Wraps a panic.
    pub fn new(err: PanicError<P>) -> (join: Self)
        ensures
            join@ == err,
    {
        JoinError { err }
    }

    /// Converts this error to panicked object.
    pub fn into_panic(self) -> (panic: Panic<P>)
        ensures
            panic == match self@ {
                PanicError::Static(text) => Panic::Message(text),
                PanicError::Unwind { object, text: _ } => Panic::Object(object),
            },
    {
        self.err.into_boxed()
    }

    /// Renders this error for programmers: the words of the panic, or the type of the object.
    pub fn to_debug_string(&self) -> (text: String)
        ensures
            text@ == "JoinError::Panic("@ + match panic_text(self@) {
                Ok(words) => words,
                Err(kind) => kind,
            } + ")"@,
    {
        let mut text = String::from_str("JoinError::Panic(");
        match self.err.as_str() {
            Ok(words) => text.append(words),
            Err(kind) => text.append(kind),
        }
        text.append(")");
        text
    }

    /// Renders this error for users: the words of the panic, or two dots if it has none.
    pub fn to_string(&self) -> (text: String)
        ensures
            text@ == "panic("@ + match panic_text(self@) {
                Ok(words) => words,
                Err(_) => ".."@,
            } + ")"@,
    {
        let mut text = String::from_str("panic(");
        match self.err.as_str() {
            Ok(words) => text.append(words),
            Err(_) => text.append(".."),
        }
        text.append(")");
        text
    }
}

/// Wraps the panic of a task or coroutine that was joined.
pub fn join_result<T, P>(result: Result<T, PanicError<P>>) -> (joined: Result<T, JoinError<P>>)
    ensures
        match result {
            Ok(value) => joined == Ok::<T, JoinError<P>>(value),
            Err(err) => joined is Err && joined->Err_0@ == err,
        },
{
    match result {
        Ok(value) => Ok(value),
        Err(err) => Err(JoinError::new(err)),
    }
}

/// A panic is resumed with the object that the coroutine panicked with, and one of this library with
/// its words.
pub proof fn law_panic_object<P>(
    err: PanicError<P>,
    panic: Panic<P>,
    join: JoinError<P>,
    joined: Panic<P>,
)
    requires
        call_ensures(PanicError::<P>::into_boxed, (err,), panic),
        call_ensures(JoinError::<P>::new, (err,), join),
        call_ensures(JoinError::<P>::into_panic, (join,), joined),
    ensures
        joined == panic,
        err matches PanicError::Static(text) ==> panic == Panic::<P>::Message(text),
        err matches PanicError::Unwind { object, text: _ } ==> panic == Panic::Object(object),
{
}

/// An error reads as the words of its panic. Where there are none, programmers read the type of the
/// object, and users two dots.
pub proof fn law_panic_words<P>(
    err: &PanicError<P>,
    words: Result<&str, &str>,
    join: JoinError<P>,
    debug: String,
    display: String,
)
    requires
        call_ensures(PanicError::<P>::as_str, (err,), words),
        call_ensures(JoinError::<P>::new, (*err,), join),
        call_ensures(JoinError::<P>::to_debug_string, (&join,), debug),
        call_ensures(JoinError::<P>::to_string, (&join,), display),
    ensures
        *err matches PanicError::Static(text) ==> words is Ok && words->Ok_0@ == text@,
        *err matches PanicError::Unwind { object: _, text } ==> {
            &&& text is Ok <==> words is Ok
            &&& text is Ok ==> words->Ok_0@ == text->Ok_0@
            &&& text is Err ==> words->Err_0@ == text->Err_0@
        },
        words is Ok ==> debug@ == "JoinError::Panic("@ + words->Ok_0@ + ")"@,
        words is Err ==> debug@ == "JoinError::Panic("@ + words->Err_0@ + ")"@,
        words is Ok ==> display@ == "panic("@ + words->Ok_0@ + ")"@,
        words is Err ==> display@ == "panic("@ + ".."@ + ")"@,
{
}

/// Joining gives the value, or the panic as an error.
pub proof fn law_join<T, P>(
    result: Result<T, PanicError<P>>,
    joined: Result<T, JoinError<P>>,
    panic: Panic<P>,
    thrown: Panic<P>,
)
    requires
        call_ensures(join_result::<T, P>, (result,), joined),
        result is Err ==> call_ensures(PanicError::<P>::into_boxed, (result->Err_0,), panic),
        joined is Err ==> call_ensures(JoinError::<P>::into_panic, (joined->Err_0,), thrown),
    ensures
        joined is Ok <==> result is Ok,
        joined is Ok ==> joined->Ok_0 == result->Ok_0,
        joined is Err ==> thrown == panic,
{
}

} // verus!
