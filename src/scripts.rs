//! The page scripts that the hover and select tools run, with the locator
//! and value embedded as JSON string literals.

use vstd::prelude::*;
use crate::json::{json_string, json_string_of};

verus! {

/// Part of the hover script before the locator.
pub const HOVER_HEAD: &'static str = r#"(() => {
  const el = document.querySelector("#;

/// Part of the hover script after the locator. It reports, as a JSON string,
/// `success` and either `error` or the element's `tagName`, `id` and `className`.
pub const HOVER_TAIL: &'static str = r#");
  if (!el) { return JSON.stringify({success: false, error: 'Element not found'}); }
  el.scrollIntoView({block: 'center'});
  for (const type of ['mouseover', 'mouseenter', 'mousemove']) {
    el.dispatchEvent(new MouseEvent(type, {bubbles: true, cancelable: true, view: window}));
  }
  return JSON.stringify({success: true, tagName: el.tagName, id: el.id, className: el.className});
})()"#;

/// Part of the select script before its configuration.
pub const SELECT_HEAD: &'static str = r#"(() => {
  const config = "#;

/// Part of the select script after its configuration. It reports, as a JSON
/// string, `success` and either `error` or the chosen option's `selectedText`.
pub const SELECT_TAIL: &'static str = r#";
  const el = document.querySelector(config.selector);
  if (!el) { return JSON.stringify({success: false, error: 'Element not found'}); }
  if (el.tagName !== 'SELECT') { return JSON.stringify({success: false, error: 'Element is not a select'}); }
  const option = Array.from(el.options).find((o) => o.value === config.value || o.text === config.value);
  if (!option) { return JSON.stringify({success: false, error: 'Option not found'}); }
  el.value = option.value;
  el.dispatchEvent(new Event('input', {bubbles: true}));
  el.dispatchEvent(new Event('change', {bubbles: true}));
  return JSON.stringify({success: true, selectedText: option.text});
})()"#;

/// The hover script around an already quoted locator.
pub fn hover_script_with(quoted_locator: &str) -> (r: String)
    ensures
        r@ == HOVER_HEAD@ + quoted_locator@ + HOVER_TAIL@,
{
    let mut r = String::from_str(HOVER_HEAD);
    r.append(quoted_locator);
    r.append(HOVER_TAIL);
    r
}

/// The script that hovers the element at `locator`.
pub fn hover_script(locator: &str) -> (r: String)
    ensures
        r@ == HOVER_HEAD@ + json_string_of(locator@) + HOVER_TAIL@,
{
    let quoted = json_string(locator);
    hover_script_with(quoted.as_str())
}

/// The configuration object of the select script, from quoted locator and value.
pub open spec fn select_config(quoted_locator: Seq<char>, quoted_value: Seq<char>) -> Seq<char> {
    "{\"selector\":"@ + quoted_locator + ",\"value\":"@ + quoted_value + "}"@
}

/// The select script around an already quoted locator and value.
pub fn select_script_with(quoted_locator: &str, quoted_value: &str) -> (r: String)
    ensures
        r@ == SELECT_HEAD@ + select_config(quoted_locator@, quoted_value@) + SELECT_TAIL@,
{
    let mut r = String::from_str(SELECT_HEAD);
    r.append("{\"selector\":");
    r.append(quoted_locator);
    r.append(",\"value\":");
    r.append(quoted_value);
    r.append("}");
    r.append(SELECT_TAIL);
    r
}

/// The script that chooses `value` in the dropdown at `locator`.
pub fn select_script(locator: &str, value: &str) -> (r: String)
    ensures
        r@ == SELECT_HEAD@ + select_config(json_string_of(locator@), json_string_of(value@)) + SELECT_TAIL@,
{
    let l = json_string(locator);
    let v = json_string(value);
    select_script_with(l.as_str(), v.as_str())
}

} // verus!
