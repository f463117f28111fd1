//! Reading and changing the options of a store.

use vstd::prelude::*;
use crate::entities::settings::{
    default_options, given, option_named, written, NamedSetting, Options, Settings,
};
use crate::errors::Error;

verus! {

pub struct Setting {
    pub name: String,
    pub value: String,
}

/// The options after the first `upto` rows were applied, one after the
/// other, to the values that the options start from.
pub open spec fn loaded(rows: Seq<Setting>, upto: int) -> Options
    decreases upto,
{
    if upto <= 0 {
        default_options()
    } else {
        given(loaded(rows, upto - 1), rows[upto - 1].name@, rows[upto - 1].value@)
    }
}

/// The options as the store keeps them: the values to start from, each
/// overridden by a row of its name, in the order of the rows. A row that
/// names no option or carries a value that its option does not accept is
/// passed over.
pub fn get_all_settings(rows: &Vec<Setting>) -> (r: Settings)
    ensures
        r@ == loaded(rows@, rows@.len() as int),
        rows@.len() == 0 ==> r.is_default(),
{
    let mut settings = Settings::new();
    let mut i: usize = 0;
    while i < rows.len()
        invariant
            i <= rows.len(),
            settings@ == loaded(rows@, i as int),
            i == 0 ==> settings.is_default(),
        decreases rows.len() - i,
    {
        let _ = settings.set(rows[i].name.as_str(), rows[i].value.as_str());
        i += 1;
    }
    settings
}

/// All options with their values as text, in their fixed order.
pub fn run_config_list_all_settings(settings: &Settings) -> (r: Vec<Setting>)
    ensures
        r@.len() == 6,
        forall|i: int|
            #![trigger r@[i]]
            0 <= i < 6 ==> r@[i].name@ == crate::entities::settings::name_of(
                crate::entities::settings::option_at(i),
            ) && r@[i].value@ == written(
                settings.value_of(crate::entities::settings::option_at(i)),
            ),
{
    let list = settings.list();
    let mut out: Vec<Setting> = Vec::new();
    let mut i: usize = 0;
    while i < list.len()
        invariant
            i <= list.len(),
            list@.len() == 6,
            out@.len() == i,
            forall|j: int|
                #![trigger list@[j]]
                0 <= j < 6 ==> list@[j].name@ == crate::entities::settings::name_of(
                    crate::entities::settings::option_at(j),
                ) && list@[j].value@ == settings.value_of(crate::entities::settings::option_at(j)),
            forall|j: int|
                #![trigger out@[j]]
                0 <= j < i ==> out@[j].name@ == list@[j].name@ && out@[j].value@ == written(
                    list@[j].value@,
                ),
        decreases list.len() - i,
    {
        out.push(Setting { name: list[i].name.clone(), value: list[i].value.as_str() });
        i += 1;
    }
    out
}

/// The value of the option of that name, as text.
pub fn run_config_get_setting_value(settings: &Settings, name: &str) -> (r: Result<String, Error>)
    ensures
        match option_named(name@) {
            Some(o) => r is Ok && r->Ok_0@ == written(settings.value_of(o)),
            None => r matches Err(Error::NoSuchSetting(n)) && n@ == name@,
        },
{
    match settings.get(name) {
        Some(v) => Ok(v.as_str()),
        None => Err(Error::NoSuchSetting(name.to_owned())),
    }
}

/// Checks a new value for an option against the options' rules and gives
/// the row to store.
pub fn run_config_update_setting(name: &str, value: &str) -> (r: Result<Setting, Error>)
    ensures
        match option_named(name@) {
            None => r matches Err(Error::NoSuchSetting(n)) && n@ == name@,
            Some(o) => match crate::entities::settings::accepts(o, value@) {
                Ok(_) => r is Ok && r->Ok_0.name@ == name@ && r->Ok_0.value@ == value@,
                Err(f) => r matches Err(Error::InvalidSetting(n, g)) && n@ == name@ && g == f,
            },
        },
{
    let mut settings = Settings::new();
    match settings.set(name, value) {
        Ok(_) => Ok(Setting { name: name.to_owned(), value: value.to_owned() }),
        Err(e) => Err(e),
    }
}

} // verus!
