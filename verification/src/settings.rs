//! Looking up named settings.

use vstd::prelude::*;
use vstd::hash_map::StringHashMap;
use vstd::string::StringExecFns;

verus! {

/// Settings by their keys. Each key has at most one value.
pub struct Settings {
    values: StringHashMap<String>,
}

impl View for Settings {
    type V = Map<Seq<char>, Seq<char>>;

    closed spec fn view(&self) -> Map<Seq<char>, Seq<char>> {
        self.values@.map_values(|value: String| value@)
    }
}

impl Settings {
    /// No settings at all.
    pub fn new() -> (settings: Settings)
        ensures
            settings@ == Map::<Seq<char>, Seq<char>>::empty(),
    {
        let settings = Settings { values: StringHashMap::new() };
        assert(settings@ =~= Map::<Seq<char>, Seq<char>>::empty());
        settings
    }

    /// Sets `key` to `value`, in place of the value that `key` had, if any.
    pub fn insert(&mut self, key: String, value: String)
        ensures
            final(self)@ == old(self)@.insert(key@, value@),
    {
        self.values.insert(key, value);
        assert(self@ =~= old(self)@.insert(key@, value@));
    }
}

/// What is said of a key that has no value.
pub open spec fn missing_key_text(key: Seq<char>) -> Seq<char> {
    "設定キー '"@ + key + "' が見つかりません"@
}

/// The value that `config` holds under `key`, or the message that says that
/// it holds none.
pub fn read_config_value(config: &Settings, key: &str) -> (value: Result<String, String>)
    ensures
        match value {
            Ok(found) => config@.contains_key(key@) && found@ == config@[key@],
            Err(message) => !config@.contains_key(key@) && message@ == missing_key_text(key@),
        },
{
    match config.values.get(key) {
        Some(found) => Ok(found.clone()),
        None => {
            let mut message = String::from_str("設定キー '");
            message.append(key);
            message.append("' が見つかりません");
            Err(message)
        },
    }
}

} // verus!
