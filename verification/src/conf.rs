//! The user configuration: which toolchain runs scripts.
use vstd::prelude::*;
use crate::app_error::AppError;

verus! {

/// What parsing `text` with `toml::from_str` into a `toml::Value`, then
/// looking up `table` and in it `key` as a string, gives: the parse error's
/// message when the text is not a TOML document, `None` when there is no
/// string at that place.
pub uninterp spec fn toml_table_str(text: Seq<char>, table: Seq<char>, key: Seq<char>) -> Result<
    Option<Seq<char>>,
    Seq<char>,
>;

/// Parses `text` with `toml::from_str::<toml::Value>` and reads `key` of
/// the table `table` with `Value::get` and `Value::as_str`. Nothing is
/// stated of the outcome beyond its name `toml_table_str`, which is a
/// function of the three texts alone; the parse error is handed back by its
/// `Display`.
#[verifier::external_body]
fn toml_lookup_str(text: &str, table: &str, key: &str) -> (r: Result<Option<String>, String>)
    ensures
        match r {
            Ok(Some(s)) => toml_table_str(text@, table@, key@) == Ok::<
                Option<Seq<char>>,
                Seq<char>,
            >(Some(s@)),
            Ok(None) => toml_table_str(text@, table@, key@) == Ok::<Option<Seq<char>>, Seq<char>>(
                None,
            ),
            Err(m) => toml_table_str(text@, table@, key@) == Err::<Option<Seq<char>>, Seq<char>>(
                m@,
            ),
        },
{
    match toml::from_str::<toml::Value>(text) {
        Ok(v) => Ok(
            v.get(table).and_then(|t| t.get(key)).and_then(toml::Value::as_str).map(String::from),
        ),
        Err(e) => Err(e.to_string()),
    }
}

/// The toolchain named in the configuration, read at `toolchain.name`:
/// `ParseConfigToml` when the text is not TOML, `MissingConfigField
/// ("toolchain.name")` when the name is not there as a string.
pub fn parse_config(config: &str) -> (r: Result<String, AppError>)
    ensures
        match toml_table_str(config@, "toolchain"@, "name"@) {
            Ok(Some(name)) => r matches Ok(s) && s@ == name,
            Ok(None) => r matches Err(AppError::MissingConfigField(f)) && f@ == "toolchain.name"@,
            Err(m) => r matches Err(AppError::ParseConfigToml(source)) && source@ == m,
        },
{
    match toml_lookup_str(config, "toolchain", "name") {
        Ok(Some(name)) => Ok(name),
        Ok(None) => Err(AppError::MissingConfigField("toolchain.name".to_owned())),
        Err(m) => Err(AppError::ParseConfigToml(m)),
    }
}

} // verus!
