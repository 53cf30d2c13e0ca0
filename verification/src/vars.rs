//! Settings that come as texts, each under a name.

use vstd::prelude::*;
use vstd::string::*;

use crate::text::{parse_unsigned, quoted, quoted_form, unsigned, NumberError};

verus! {

/// The first fault, if there is any.
pub open spec fn first_fault(first: Option<Seq<char>>, second: Option<Seq<char>>) -> Option<Seq<char>> {
    if first is Some {
        first
    } else {
        second
    }
}

/// `reason` as a fault, when something is wrong.
pub open spec fn fault_if(wrong: bool, reason: Seq<char>) -> Option<Seq<char>> {
    if wrong {
        Some(reason)
    } else {
        None
    }
}

/// That a variable cannot be read, for a reason; its text is given in quotes.
pub open spec fn invalid_setting(name: Seq<char>, quoted: Seq<char>, reason: Seq<char>) -> Seq<char> {
    "invalid "@ + name + "="@ + quoted + ": "@ + reason
}

/// Says that a variable cannot be read, for a reason; its text is given in quotes.
pub fn invalid_setting_text(name: &str, quoted: &str, reason: &str) -> (text: String)
    ensures
        text@ == invalid_setting(name@, quoted@, reason@),
{
    "invalid ".to_owned().concat(name).concat("=").concat(quoted).concat(": ").concat(reason)
}

/// That a pacing is unknown; its text is given in quotes.
pub open spec fn unknown_pacing(quoted: Seq<char>) -> Seq<char> {
    "SIM_PACING must be 'steady' or 'bursty:N' (got "@ + quoted + ")"@
}

/// What is wrong with the text of a numeric variable, if it is set.
pub open spec fn number_fault(name: Seq<char>, var: Option<String>, max: nat) -> Option<Seq<char>> {
    match var {
        None => None,
        Some(text) => match unsigned(text@, max) {
            Ok(_) => None,
            Err(error) => Some(invalid_setting(name, quoted_form(text@), error.words())),
        },
    }
}

/// The number in a variable, or the default when it is not set.
pub open spec fn number_or(var: Option<String>, max: nat, default: nat) -> nat {
    match var {
        None => default,
        Some(text) => unsigned(text@, max)->Ok_0,
    }
}

/// Reads a numeric variable; `None` when it is not set.
pub fn read_number(name: &str, var: &Option<String>, max: u64) -> (result: Result<Option<u64>, String>)
    ensures
        match result {
            Ok(value) => {
                &&& number_fault(name@, *var, max as nat) is None
                &&& value is Some <==> *var is Some
                &&& value is Some ==> value->Some_0 == number_or(*var, max as nat, 0) && value->Some_0 <= max
            },
            Err(reason) => number_fault(name@, *var, max as nat) == Some(reason@),
        },
{
    match var {
        None => Ok(None),
        Some(text) => match parse_unsigned(text.as_str(), max) {
            Ok(value) => Ok(Some(value)),
            Err(error) => {
                let reason = invalid_setting_text(name, quoted(text.as_str()).as_str(), error.message());
                Err(reason)
            },
        },
    }
}

/// A variable that is not set has no number. One that is set has the number that its text is
/// read as; and where the text is no such number, the error names the variable, its text in
/// quotes, and what is wrong with it.
pub proof fn law_variables_are_read_as_numbers(
    name: &str,
    var: Option<String>,
    max: u64,
    result: Result<Option<u64>, String>,
    text: &str,
    number: Result<u64, NumberError>,
)
    requires
        call_ensures(read_number, (name, &var, max), result),
        var is Some ==> text@ == var->Some_0@,
        call_ensures(parse_unsigned, (text, max), number),
    ensures
        var is None ==> result is Ok && result->Ok_0 is None,
        var is Some && number is Ok ==> result is Ok && result->Ok_0 == Some(number->Ok_0),
        var is Some && number is Err ==> result is Err && result->Err_0@ == "invalid "@ + name@ + "="@ + quoted_form(
            text@,
        ) + ": "@ + number->Err_0.words(),
{
}

/// The words around a quoted text.
pub proof fn law_invalid_setting_names_everything(name: &str, quoted: &str, reason: &str, text: String)
    requires
        call_ensures(invalid_setting_text, (name, quoted, reason), text),
    ensures
        text@ == "invalid "@ + name@ + "="@ + quoted@ + ": "@ + reason@,
        unknown_pacing(quoted@) == "SIM_PACING must be 'steady' or 'bursty:N' (got "@ + quoted@ + ")"@,
{
}

/// What is said of a variable that is set to something that is not read as a number: its name,
/// its text in quotes, and what is wrong with it.
pub open spec fn complaint(name: Seq<char>, var: Option<String>, max: nat) -> Seq<char> {
    "invalid "@ + name + "="@ + quoted_form(var->Some_0@) + ": "@ + unsigned(var->Some_0@, max)->Err_0.words()
}

} // verus!
