use vstd::prelude::*;

verus! {

/// Turns an optional result inside out: `None` becomes `Ok(None)`,
/// `Some(Ok(x))` becomes `Ok(Some(x))` and `Some(Err(e))` becomes `Err(e)`.
pub fn transpose<T, E>(x: Option<Result<T, E>>) -> (res: Result<Option<T>, E>)
    ensures
        match x {
            Some(Ok(v)) => res == Ok::<Option<T>, E>(Some(v)),
            Some(Err(e)) => res == Err::<Option<T>, E>(e),
            None => res == Ok::<Option<T>, E>(None),
        },
{
    match x {
        Some(Ok(v)) => Ok(Some(v)),
        Some(Err(e)) => Err(e),
        None => Ok(None),
    }
}

} // verus!
