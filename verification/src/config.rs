use vstd::prelude::*;

verus! {

/// The program's settings, as the configuration file holds them.
#[derive(Debug)]
pub struct Settings {
    pub refresh_rate: u64,
    pub sort_by: String,
    pub sort_order: String,
    pub theme: String,
}

/// The contents of the configuration file.
#[derive(Debug)]
pub struct Config {
    pub settings: Settings,
}

/// The settings that hold when the file gives none.
pub open spec fn default_settings(s: Settings) -> bool {
    &&& s.refresh_rate == 1000
    &&& s.sort_by@ == "size"@
    &&& s.sort_order@ == "desc"@
    &&& s.theme@ == "dark"@
}

impl Default for Settings {
    fn default() -> (s: Self)
        ensures
            default_settings(s),
    {
        Settings {
            refresh_rate: 1000,
            sort_by: String::from_str("size"),
            sort_order: String::from_str("desc"),
            theme: String::from_str("dark"),
        }
    }
}

impl Default for Config {
    fn default() -> (c: Self)
        ensures
            default_settings(c.settings),
    {
        Config { settings: Settings::default() }
    }
}

impl Clone for Settings {
    fn clone(&self) -> (s: Self)
        ensures
            s == *self,
    {
        Settings {
            refresh_rate: self.refresh_rate,
            sort_by: self.sort_by.clone(),
            sort_order: self.sort_order.clone(),
            theme: self.theme.clone(),
        }
    }
}

impl Clone for Config {
    fn clone(&self) -> (c: Self)
        ensures
            c == *self,
    {
        Config { settings: self.settings.clone() }
    }
}

} // verus!
