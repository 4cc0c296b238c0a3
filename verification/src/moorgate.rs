//! Small parsers that can be put together: one that tests how a text starts,
//! and one that hands another parser's result on to a function.

use vstd::prelude::*;
use std::marker::PhantomData;
use vstd::string::StringSliceAdditionalSpecFns;

verus! {

/// Where a parser gave up.
#[derive(Copy, Clone, PartialEq, Debug)]
pub struct Error {
    pub position: LineColumn,
}

/// A place in a text, both counted from one.
#[derive(Copy, Clone, PartialEq, Debug)]
pub struct LineColumn {
    pub line: u32,
    pub column: u32,
}

/// A parser of texts.
pub trait TParser<'a>: Copy + Sized {
    /// What the parser makes of a text.
    type Return;

    /// Whether the parser may be run on `input`.
    spec fn ready(&self, input: &'a str) -> bool;

    /// Whether `result` is what the parser may return for `input`.
    spec fn yields(&self, input: &'a str, result: Result<Self::Return, Error>) -> bool;

    /// Runs the parser on `input`.
    fn parse(&self, input: &'a str) -> (result: Result<Self::Return, Error>)
        requires
            self.ready(input),
        ensures
            self.yields(input, result),
    ;

    /// The parser that runs this one and hands what it returns to
    /// `map_function`.
    fn map<R2: Copy, MF>(&self, map_function: MF) -> (mapped: MapParser<Self, R2, MF>) where
        MF: (Fn(Self::Return) -> R2) + Copy + Sized,

        ensures
            mapped.inner == *self,
            mapped.map_function == map_function,
    ;
}

/// The parser that accepts the texts which start with `symbol`.
#[derive(Copy, Clone, PartialEq, Debug)]
pub struct SymParser {
    pub symbol: &'static str,
}

/// The failure of a parser that looks at the start of a text only.
pub open spec fn at_start() -> Error {
    Error { position: LineColumn { line: 1, column: 1 } }
}

/// Whether the bytes of `input` start with the bytes of `symbol`.
pub fn starts_with(input: &str, symbol: &str) -> (yes: bool)
    ensures
        yes == symbol.spec_bytes().is_prefix_of(input.spec_bytes()),
{
    let text = input.as_bytes();
    let start = symbol.as_bytes();
    if start.len() > text.len() {
        return false;
    }
    let mut i: usize = 0;
    while i < start.len()
        invariant
            i <= start@.len() <= text@.len(),
            start@ == symbol.spec_bytes(),
            text@ == input.spec_bytes(),
            forall|k: int| 0 <= k < i ==> start@[k] == text@[k],
        decreases start@.len() - i,
    {
        if start[i] != text[i] {
            proof {
                let front = text@.subrange(0, start@.len() as int);
                assert(front[i as int] == text@[i as int]);
                assert(!(start@ =~= front));
            }
            return false;
        }
        i = i + 1;
    }
    assert(start@ =~= text@.subrange(0, start@.len() as int));
    true
}

impl<'a> TParser<'a> for SymParser {
    type Return = &'a str;

    open spec fn ready(&self, input: &'a str) -> bool {
        true
    }

    open spec fn yields(&self, input: &'a str, result: Result<&'a str, Error>) -> bool {
        result == if self.symbol.spec_bytes().is_prefix_of(input.spec_bytes()) {
            Ok::<&'a str, Error>(input)
        } else {
            Err::<&'a str, Error>(at_start())
        }
    }

    /// The whole of `input` where it starts with the symbol, else a failure at
    /// its start.
    fn parse(&self, input: &'a str) -> (result: Result<Self::Return, Error>) {
        if starts_with(input, self.symbol) {
            return Ok(input);
        }
        Err(Error { position: LineColumn { line: 1, column: 1 } })
    }

    fn map<R2: Copy, MF>(&self, map_function: MF) -> (mapped: MapParser<Self, R2, MF>) where
        MF: (Fn(&'a str) -> R2) + Copy + Sized,
     {
        MapParser { inner: *self, map_function, phantom_t: PhantomData }
    }
}

/// The parser that runs `inner` and hands what it returns to `map_function`.
pub struct MapParser<T, R, MF> {
    pub inner: T,
    pub map_function: MF,
    pub phantom_t: PhantomData<R>,
}

impl<T: Copy, R, MF: Copy> Clone for MapParser<T, R, MF> {
    fn clone(&self) -> (copy: Self)
        ensures
            copy == *self,
    {
        *self
    }
}

impl<T: Copy, R, MF: Copy> Copy for MapParser<T, R, MF> {

}

impl<'a, T: TParser<'a, Return = I>, I, R: Copy, IF: (Fn(I) -> R) + Copy> TParser<
    'a,
> for MapParser<T, R, IF> {
    type Return = R;

    open spec fn ready(&self, input: &'a str) -> bool {
        &&& self.inner.ready(input)
        &&& forall|found: I| #[trigger]
            self.inner.yields(input, Ok::<I, Error>(found)) ==> call_requires(
                self.map_function,
                (found,),
            )
    }

    open spec fn yields(&self, input: &'a str, result: Result<R, Error>) -> bool {
        match result {
            Ok(mapped) => exists|found: I| #[trigger]
                self.inner.yields(input, Ok::<I, Error>(found)) && call_ensures(
                    self.map_function,
                    (found,),
                    mapped,
                ),
            Err(error) => self.inner.yields(input, Err::<I, Error>(error)),
        }
    }

    /// What `map_function` makes of the inner parser's result, or the inner
    /// parser's failure. Verified code that holds a closure or a named
    /// function reaches this through `parse_mapped`.
    fn parse(&self, input: &'a str) -> (result: Result<Self::Return, Error>) {
        let r = match self.inner.parse(input) {
            Ok(r) => r,
            Err(error) => {
                return Err(error);
            },
        };
        Ok((self.map_function)(r))
    }

    fn map<R2: Copy, MF>(&self, map_function: MF) -> (mapped: MapParser<Self, R2, MF>) where
        MF: (Fn(Self::Return) -> R2) + Copy + Sized,
     {
        MapParser { inner: *self, map_function, phantom_t: PhantomData }
    }
}

/// Runs `parser` on `input` and hands what it returns to `map_function`: what
/// `parser.map(map_function).parse(input)` returns. The precondition is that
/// of `MapParser::parse`, `ready`, written out over the parser and the
/// function: Verus unfolds `ready` of a `MapParser` only where the function's
/// type is a type parameter, so a caller that holds a closure or a named
/// function calls this.
pub fn parse_mapped<'a, T: TParser<'a>, R: Copy, MF: (Fn(T::Return) -> R) + Copy>(
    parser: &T,
    map_function: MF,
    input: &'a str,
) -> (result: Result<R, Error>)
    requires
        parser.ready(input),
        forall|found: T::Return| #[trigger]
            parser.yields(input, Ok::<T::Return, Error>(found)) ==> call_requires(
                map_function,
                (found,),
            ),
    ensures
        match result {
            Ok(mapped) => exists|found: T::Return| #[trigger]
                parser.yields(input, Ok::<T::Return, Error>(found)) && call_ensures(
                    map_function,
                    (found,),
                    mapped,
                ),
            Err(error) => parser.yields(input, Err::<T::Return, Error>(error)),
        },
{
    parser.map(map_function).parse(input)
}

/// The parser that accepts the texts which start with `symbol`.
pub fn sym(symbol: &'static str) -> (parser: SymParser)
    ensures
        parser.symbol == symbol,
{
    SymParser { symbol }
}

} // verus!
