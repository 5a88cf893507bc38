use vstd::prelude::*;

use crate::types::{anonymous_bytes, AirdropError, Identity};

verus! {

/// Success for a controller, `Unauthorized` for anyone else.
pub open spec fn authorization(is_controller: bool) -> Result<(), AirdropError> {
    if is_controller {
        Ok(())
    } else {
        Err(AirdropError::Unauthorized)
    }
}

/// Returns an error unless the caller is a controller of the service.
pub fn only_controller(is_controller: bool) -> (r: Result<(), AirdropError>)
    ensures
        r == authorization(is_controller),
{
    if !is_controller {
        return Err(AirdropError::Unauthorized);
    }
    Ok(())
}

/// Returns `ConfigurationError` for the anonymous identity.
pub fn not_anonymous(id: &Identity) -> (r: Result<(), AirdropError>)
    ensures
        r == (if id@ == anonymous_bytes() {
            Err(AirdropError::ConfigurationError)
        } else {
            Ok(())
        }),
{
    if id.is_anonymous() {
        return Err(AirdropError::ConfigurationError);
    }
    Ok(())
}

/// Unpacks the reply of a call to another service; a rejected call becomes
/// `Unknown` with the rejection's message.
pub fn handle_intercanister_call<T, C>(canister_response: Result<(T,), (C, String)>) -> (r: Result<
    T,
    AirdropError,
>)
    ensures
        match canister_response {
            Ok(v) => r == Ok::<T, AirdropError>(v.0),
            Err(e) => r == Err::<T, AirdropError>(AirdropError::Unknown(e.1)),
        },
{
    match canister_response {
        Ok((response,)) => Ok(response),
        Err((_code, message)) => Err(AirdropError::Unknown(message)),
    }
}

} // verus!
