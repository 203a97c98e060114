//! The script market and the plugin marketplace: which market scripts are
//! installed, in which version, and how many plugins a marketplace lists.
use vstd::prelude::*;

use crate::codex_oauth::opt_view;
use crate::json::{json_get, json_get_exec, json_parse, parse_json, JsonValue};
use crate::relay_rotation::{lemma_pairs_index, pair_position, pairs_get, pairs_index, pairs_insert};
use crate::text::owned;

verus! {

/// The market id and version a user script entry records, when it records
/// a non-empty market id (a missing version counts as empty).
pub open spec fn market_entry(script: JsonValue) -> Option<(Seq<char>, Seq<char>)> {
    match json_get(script, "market_id"@) {
        Some(JsonValue::Str(id)) => if id@.len() == 0 {
            None
        } else {
            Some(
                (
                    id@,
                    match json_get(script, "version"@) {
                        Some(JsonValue::Str(v)) => v@,
                        _ => Seq::empty(),
                    },
                ),
            )
        },
        _ => None,
    }
}

/// The installed versions recorded by the first `n` script entries, as a
/// map from market id to version where a later entry of the same id wins.
pub open spec fn installed_upto(scripts: Seq<JsonValue>, n: int) -> Seq<(Seq<char>, Seq<char>)>
    decreases n,
{
    if n <= 0 {
        Seq::empty()
    } else {
        let prev = installed_upto(scripts, n - 1);
        match market_entry(scripts[n - 1]) {
            Some((id, v)) => pairs_insert(prev, id, v),
            None => prev,
        }
    }
}

/// The scripts array of the user script inventory, empty when there is none.
pub open spec fn inventory_scripts(user_scripts: JsonValue) -> Seq<JsonValue> {
    match json_get(user_scripts, "scripts"@) {
        Some(JsonValue::Array(a)) => a@,
        _ => Seq::empty(),
    }
}

pub open spec fn versions_view(v: Seq<(String, String)>) -> Seq<(Seq<char>, Seq<char>)> {
    v.map_values(|p: (String, String)| (p.0@, p.1@))
}

fn str_field(v: &JsonValue, key: &str) -> (r: Option<String>)
    ensures
        opt_view(r) == match json_get(*v, key@) {
            Some(JsonValue::Str(s)) => Some(s@),
            _ => None::<Seq<char>>,
        },
{
    match json_get_exec(v, key) {
        Some(JsonValue::Str(s)) => Some(owned(s.as_str())),
        _ => None,
    }
}

/// The market scripts the user has installed: market id to installed
/// version, one entry per id.
pub fn installed_market_versions(user_scripts: &JsonValue) -> (r: Vec<(String, String)>)
    ensures
        versions_view(r@) == installed_upto(
            inventory_scripts(*user_scripts),
            inventory_scripts(*user_scripts).len() as int,
        ),
{
    let mut out: Vec<(String, String)> = Vec::new();
    assert(versions_view(out@) =~= Seq::<(Seq<char>, Seq<char>)>::empty());
    let scripts = match json_get_exec(user_scripts, "scripts") {
        Some(JsonValue::Array(a)) => a,
        _ => return out,
    };
    let ghost sv = inventory_scripts(*user_scripts);
    assert(sv == scripts@);
    let mut i: usize = 0;
    while i < scripts.len()
        invariant
            i <= scripts@.len(),
            sv == scripts@,
            versions_view(out@) == installed_upto(sv, i as int),
        decreases scripts@.len() - i,
    {
        let script = &scripts[i];
        match str_field(script, "market_id") {
            Some(id) => {
                if !id.as_str().is_empty() {
                    let version = match str_field(script, "version") {
                        Some(v) => v,
                        None => String::new(),
                    };
                    let ghost before = versions_view(out@);
                    proof {
                        lemma_pairs_index(before, id@);
                    }
                    match pair_position(&out, id.as_str()) {
                        Some(pos) => {
                            proof {
                                assert(before[pos as int].0 == id@);
                                assert(pairs_index(before, id@) == Some(pos as int)) by {
                                    match pairs_index(before, id@) {
                                        Some(x) => {
                                            if x < pos {
                                                assert(before[x].0 != id@);
                                            }
                                            if x > pos {
                                                assert(before[pos as int].0 == id@);
                                            }
                                        },
                                        None => {
                                            assert(before[pos as int].0 == id@);
                                        },
                                    }
                                }
                            }
                            let k = owned(out[pos].0.as_str());
                            out.set(pos, (k, version));
                            assert(versions_view(out@) =~= pairs_insert(before, id@, version@));
                        },
                        None => {
                            proof {
                                assert(pairs_index(before, id@) is None) by {
                                    match pairs_index(before, id@) {
                                        Some(x) => {
                                            assert(before[x].0 == out@[x].0@);
                                        },
                                        None => {},
                                    }
                                }
                            }
                            out.push((id, version));
                            assert(versions_view(out@) =~= pairs_insert(before, id@, version@));
                        },
                    }
                }
            },
            None => {},
        }
        i = i + 1;
    }
    out
}

/// How a market script stands among the installed ones: the installed
/// version (empty when it is not installed), whether it is installed, and
/// whether the market offers another version.
#[derive(Debug, Clone)]
pub struct MarketInstallState {
    pub installed_version: String,
    pub installed: bool,
    pub update_available: bool,
}

/// The standing of the market script `script_id` at `script_version`.
pub fn market_install_state(installed: &Vec<(String, String)>, script_id: &str, script_version: &str) -> (r:
    MarketInstallState)
    ensures
        r.installed_version@ == match pairs_get(versions_view(installed@), script_id@) {
            Some(v) => v,
            None => Seq::<char>::empty(),
        },
        r.installed == (r.installed_version@.len() > 0),
        r.update_available == (r.installed && pairs_get(versions_view(installed@), script_id@) != Some(
            script_version@,
        )),
{
    proof {
        lemma_pairs_index(versions_view(installed@), script_id@);
    }
    let installed_version = match pair_position(installed, script_id) {
        Some(pos) => {
            proof {
                let vv = versions_view(installed@);
                assert(vv[pos as int].0 == script_id@);
                assert(pairs_index(vv, script_id@) == Some(pos as int)) by {
                    match pairs_index(vv, script_id@) {
                        Some(x) => {
                            if x < pos {
                                assert(vv[x].0 != script_id@);
                            }
                            if x > pos {
                                assert(vv[pos as int].0 == script_id@);
                            }
                        },
                        None => {
                            assert(vv[pos as int].0 == script_id@);
                        },
                    }
                }
            }
            owned(installed[pos].1.as_str())
        },
        None => {
            proof {
                let vv = versions_view(installed@);
                assert(pairs_index(vv, script_id@) is None) by {
                    match pairs_index(vv, script_id@) {
                        Some(x) => {
                            assert(vv[x].0 == installed@[x].0@);
                        },
                        None => {},
                    }
                }
            }
            String::new()
        },
    };
    let is_installed = !installed_version.as_str().is_empty();
    let update_available = is_installed && !crate::text::str_eq(installed_version.as_str(), script_version);
    MarketInstallState { installed_version, installed: is_installed, update_available }
}

/// How many plugins a marketplace file lists: the length of its `plugins`
/// array, zero when the file is missing, not JSON or lists none.
pub open spec fn plugin_count_spec(text: Option<Seq<char>>) -> nat {
    match text {
        Some(t) => match json_parse(t) {
            Some(v) => match json_get(v, "plugins"@) {
                Some(JsonValue::Array(a)) => a@.len(),
                _ => 0,
            },
            None => 0,
        },
        None => 0,
    }
}

/// The number of plugins in a marketplace file's text.
pub fn marketplace_plugin_count(text: Option<&str>) -> (r: usize)
    ensures
        r as nat == plugin_count_spec(
            match text {
                Some(t) => Some(t@),
                None => None,
            },
        ),
{
    let t = match text {
        Some(t) => t,
        None => return 0,
    };
    match parse_json(t) {
        Some(v) => match json_get_exec(&v, "plugins") {
            Some(JsonValue::Array(a)) => a.len(),
            _ => 0,
        },
        None => 0,
    }
}

} // verus!
