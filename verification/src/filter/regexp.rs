use vstd::prelude::*;
use crate::eval::BaseResult;
use crate::regexp::{RegexHolder, add_capture_group_brackets, bracketed, regex_first_match, regex_replace_all, regex_replace_first};

verus! {

/// The first match of `regex` in the value, or nothing.
pub fn get_match(value: String, regex: &RegexHolder) -> (r: BaseResult<String>)
    ensures
        r matches Ok(s) && s@ == match regex_first_match(regex@, value@) {
            Some(m) => m,
            None => Seq::<char>::empty(),
        },
{
    match regex.find(value.as_str()) {
        Some(m) => Ok(m),
        None => Ok(String::new()),
    }
}

/// The value with the first match of `regex` replaced (`$N` in the replacement refers to
/// capture group `N`).
pub fn replace_first(value: String, regex: &RegexHolder, replacement: &str) -> (r: BaseResult<String>)
    ensures
        r matches Ok(s) && s@ == regex_replace_first(regex@, value@, bracketed(replacement@)),
        r matches Ok(s) && (regex_first_match(regex@, value@) is None ==> s@ == value@),
{
    let replacement = add_capture_group_brackets(replacement);
    Ok(regex.replace_first(value.as_str(), replacement.as_str()))
}

/// The value with every match of `regex` replaced (`$N` in the replacement refers to
/// capture group `N`).
pub fn replace_all(value: String, regex: &RegexHolder, replacement: &str) -> (r: BaseResult<String>)
    ensures
        r matches Ok(s) && s@ == regex_replace_all(regex@, value@, bracketed(replacement@)),
        r matches Ok(s) && (regex_first_match(regex@, value@) is None ==> s@ == value@),
{
    let replacement = add_capture_group_brackets(replacement);
    Ok(regex.replace_all(value.as_str(), replacement.as_str()))
}

/// The text of capture group `number`, or nothing when there is no such group or it did
/// not take part in the match.
pub fn get_capture(captures: Option<&Vec<Option<String>>>, number: usize) -> (r: BaseResult<String>)
    ensures
        r matches Ok(s) && s@ == match captures {
            Some(groups) => if number < groups@.len() {
                match groups@[number as int] {
                    Some(t) => t@,
                    None => Seq::<char>::empty(),
                }
            } else {
                Seq::<char>::empty()
            },
            None => Seq::<char>::empty(),
        },
{
    match captures {
        Some(groups) => {
            if number < groups.len() {
                match &groups[number] {
                    Some(t) => Ok(crate::text::string_from_str(t.as_str())),
                    None => Ok(String::new()),
                }
            } else {
                Ok(String::new())
            }
        },
        None => Ok(String::new()),
    }
}

} // verus!
