//! The user configuration: the name under which the shell integration
//! registers the jump command, and its persistent text encoding.
use vstd::prelude::*;

use crate::JumpError;

verus! {

/// The user configuration.
#[derive(Debug, Clone)]
pub struct Config {
    /// The name under which the shell integration registers the jump command.
    pub command: String,
}

/// The key under which the command name stands in the configuration text.
pub open spec fn command_key() -> Seq<char> {
    seq!['c', 'o', 'm', 'm', 'a', 'n', 'd']
}

/// The command name the default configuration carries.
pub open spec fn default_command() -> Seq<char> {
    seq!['j']
}

impl core::default::Default for Config {
    /// The default configuration: the jump command is registered as `j`.
    fn default() -> (c: Config)
        ensures
            c.command@ == default_command(),
    {
        proof {
            reveal_strlit("j");
        }
        let c = Config { command: "j".to_owned() };
        proof {
            assert(c.command@ =~= default_command());
        }
        c
    }
}

/// The text a configuration with value `value` under key `key` is stored as.
pub uninterp spec fn toml_doc(key: Seq<char>, value: Seq<char>) -> Seq<char>;

/// Relies on `toml::to_string`: serializing a table of one string entry
/// yields a text that is a function of the key and the value alone, and
/// does not fail.
#[verifier::external_body]
fn toml_encode_entry(key: &str, value: &str) -> (r: String)
    ensures
        r@ == toml_doc(key@, value@),
{
    let mut table = toml::map::Map::new();
    table.insert(key.to_owned(), toml::Value::String(value.to_owned()));
    toml::to_string(&toml::Value::Table(table)).unwrap()
}

/// Relies on `toml::from_str`, `toml::Value::get` and `toml::Value::as_str`:
/// parsing a stored document and looking up the key it was produced with
/// gives back the value it was produced from.
#[verifier::external_body]
fn toml_decode_entry(text: &str, key: &str) -> (r: Option<String>)
    ensures
        forall|v: Seq<char>| text@ == toml_doc(key@, v) ==> r is Some && (r->Some_0)@ == v,
{
    match toml::from_str::<toml::Value>(text) {
        Ok(doc) => match doc.get(key) {
            Some(entry) => entry.as_str().map(|s| s.to_owned()),
            None => None,
        },
        Err(_) => None,
    }
}

/// Encodes a configuration as its persistent text.
pub fn save_config(config: &Config) -> (r: String)
    ensures
        r@ == toml_doc(command_key(), config.command@),
{
    proof {
        reveal_strlit("command");
        assert("command"@ =~= command_key());
    }
    toml_encode_entry("command", config.command.as_str())
}

/// Decodes persisted configuration text.
///
/// Empty text (a missing or empty file) yields the default configuration
/// together with `true`: the caller is to persist it at once. Text under
/// which a configuration was stored yields that configuration; any other
/// text is corrupt.
pub fn load_config(text: &str) -> (r: Result<(Config, bool), JumpError>)
    ensures
        text@.len() == 0 ==> r is Ok && (r->Ok_0).0.command@ == default_command() && (r->Ok_0).1
            == true,
        forall|v: Seq<char>|
            text@ == toml_doc(command_key(), v) && text@.len() > 0 ==> r is Ok && (
            r->Ok_0).0.command@ == v && (r->Ok_0).1 == false,
        r is Err ==> r->Err_0 == JumpError::CorruptConfig,
{
    if text.unicode_len() == 0 {
        return Ok((Config::default(), true));
    }
    proof {
        reveal_strlit("command");
        assert("command"@ =~= command_key());
    }
    match toml_decode_entry(text, "command") {
        Option::Some(cmd) => Ok((Config { command: cmd }, false)),
        Option::None => Err(JumpError::CorruptConfig),
    }
}

} // verus!
