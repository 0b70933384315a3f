//! Recipe configuration for static analysis scoring.
//!
//! A recipe's YAML is held as plain values: the fields the scorer reads, and
//! YAML values (`YamlValue`) wherever the recipe keeps free-form data. Both
//! nested `policy:` sections and top-level policy fields are kept.

use vstd::prelude::*;

use crate::text::{chars_eq_str, chars_of, contains, contains_str};

verus! {

broadcast use vstd::string::group_string_axioms;

/// A YAML value: scalars, sequences, mappings (entries in document order),
/// and tagged values (`!Tag value`).
#[derive(Debug)]
pub enum YamlValue {
    /// `null` or `~`.
    Null,
    /// `true` or `false`.
    Bool(bool),
    /// A number, by its decimal text.
    Number(String),
    /// A string.
    String(String),
    /// A sequence.
    Sequence(Vec<YamlValue>),
    /// A mapping: its entries in order, keys distinct.
    Mapping(Vec<YamlEntry>),
    /// A tagged value.
    Tagged(Box<YamlTagged>),
}

/// One key/value entry of a YAML mapping.
#[derive(Debug)]
pub struct YamlEntry {
    /// The key.
    pub key: YamlValue,
    /// The value.
    pub value: YamlValue,
}

/// A tagged YAML value.
#[derive(Debug)]
pub struct YamlTagged {
    /// The tag, without the `!`.
    pub tag: String,
    /// The value under the tag.
    pub value: YamlValue,
}

/// A named YAML value (one entry of the recipe's `machines` or `resources`).
#[derive(Debug)]
pub struct NamedValue {
    /// The entry's name.
    pub name: String,
    /// The entry's value.
    pub value: YamlValue,
}

/// The value under any tags (what `as_str` and `as_mapping` look through).
pub open spec fn untagged(v: YamlValue) -> YamlValue
    decreases v,
{
    match v {
        YamlValue::Tagged(t) => untagged(t.value),
        _ => v,
    }
}

/// The text of a string value, looking through tags.
pub open spec fn value_str(v: YamlValue) -> Option<Seq<char>> {
    match untagged(v) {
        YamlValue::String(s) => Some(s@),
        _ => None,
    }
}

/// The value of the first entry whose key is the string `key`.
pub open spec fn entries_get(es: Seq<YamlEntry>, key: Seq<char>) -> Option<YamlValue>
    decreases es.len(),
{
    if es.len() == 0 {
        None
    } else {
        match es[0].key {
            YamlValue::String(k) => if k@ == key {
                Some(es[0].value)
            } else {
                entries_get(es.drop_first(), key)
            },
            _ => entries_get(es.drop_first(), key),
        }
    }
}

/// The value at string key `key`, when `v` (looking through tags) is a mapping.
pub open spec fn value_get(v: YamlValue, key: Seq<char>) -> Option<YamlValue> {
    match untagged(v) {
        YamlValue::Mapping(es) => entries_get(es@, key),
        _ => None,
    }
}

/// A resource field as text: `v` is a mapping and the field holds a string.
pub open spec fn field_str(v: YamlValue, key: Seq<char>) -> Option<Seq<char>> {
    match value_get(v, key) {
        Some(x) => value_str(x),
        None => None,
    }
}

/// `v` is a mapping with the string key `key`.
pub open spec fn has_field(v: YamlValue, key: Seq<char>) -> bool {
    value_get(v, key) is Some
}

/// Some value of the mapping is a string holding both `{{` and `}}`.
pub open spec fn has_interpolation(es: Seq<YamlEntry>) -> bool {
    exists|i: int|
        0 <= i < es.len() && match value_str(#[trigger] es[i].value) {
            Some(s) => contains(s, "{{"@) && contains(s, "}}"@),
            None => false,
        }
}

/// `v` is a mapping that uses templates: a `template` key, or a string value
/// with `{{ … }}` interpolation.
pub open spec fn uses_template(v: YamlValue) -> bool {
    match untagged(v) {
        YamlValue::Mapping(es) => entries_get(es@, "template"@) is Some || has_interpolation(es@),
        _ => false,
    }
}

/// The value under any tags.
pub fn untag(v: &YamlValue) -> (r: &YamlValue)
    ensures
        *r == untagged(*v),
    decreases v,
{
    match v {
        YamlValue::Tagged(t) => untag(&t.value),
        _ => v,
    }
}

/// The value at string key `key` among the entries.
fn entries_lookup<'a>(es: &'a Vec<YamlEntry>, key: &str) -> (r: Option<&'a YamlValue>)
    ensures
        match r {
            Some(x) => entries_get(es@, key@) == Some(*x),
            None => entries_get(es@, key@) is None,
        },
{
    let mut i: usize = 0;
    assert(es@.skip(0) =~= es@);
    while i < es.len()
        invariant
            i <= es@.len(),
            entries_get(es@, key@) == entries_get(es@.skip(i as int), key@),
        decreases es@.len() - i,
    {
        assert(es@.skip(i as int).drop_first() =~= es@.skip(i + 1));
        assert(es@.skip(i as int)[0] == es@[i as int]);
        match &es[i].key {
            YamlValue::String(k) => {
                let kc = chars_of(k.as_str());
                if chars_eq_str(&kc, key) {
                    return Some(&es[i].value);
                }
            },
            _ => {},
        }
        i = i + 1;
    }
    None
}

/// The value at string key `key`, when `v` is a mapping.
pub fn get_field<'a>(v: &'a YamlValue, key: &str) -> (r: Option<&'a YamlValue>)
    ensures
        match r {
            Some(x) => value_get(*v, key@) == Some(*x),
            None => value_get(*v, key@) is None,
        },
{
    match untag(v) {
        YamlValue::Mapping(es) => entries_lookup(es, key),
        _ => None,
    }
}

/// The text of a string value, looking through tags.
pub fn as_str(v: &YamlValue) -> (r: Option<&str>)
    ensures
        match r {
            Some(s) => value_str(*v) == Some(s@),
            None => value_str(*v) is None,
        },
{
    match untag(v) {
        YamlValue::String(s) => Some(s.as_str()),
        _ => None,
    }
}

/// Extract resource field as string from a YAML value.
pub fn resource_str(val: &YamlValue, key: &str) -> (r: Option<String>)
    ensures
        match r {
            Some(s) => field_str(*val, key@) == Some(s@),
            None => field_str(*val, key@) is None,
        },
{
    match get_field(val, key) {
        Some(x) => match as_str(x) {
            Some(s) => Some(s.to_string()),
            None => None,
        },
        None => None,
    }
}

/// Check if a resource has a `depends_on` field.
pub fn has_depends_on(val: &YamlValue) -> (b: bool)
    ensures
        b == has_field(*val, "depends_on"@),
{
    get_field(val, "depends_on").is_some()
}

/// Check if a resource has tags.
pub fn has_tags(val: &YamlValue) -> (b: bool)
    ensures
        b == has_field(*val, "tags"@),
{
    get_field(val, "tags").is_some()
}

/// Check if a resource has a `resource_group` field.
pub fn has_resource_group(val: &YamlValue) -> (b: bool)
    ensures
        b == has_field(*val, "resource_group"@),
{
    get_field(val, "resource_group").is_some()
}

/// Check if a resource uses templates (either a `template` field or `{{` in values).
pub fn has_template(val: &YamlValue) -> (b: bool)
    ensures
        b == uses_template(*val),
{
    let u = untag(val);
    let es = match u {
        YamlValue::Mapping(es) => es,
        _ => {
            return false;
        },
    };
    assert(untagged(*val) == YamlValue::Mapping(*es));
    if entries_lookup(es, "template").is_some() {
        return true;
    }
    let mut i: usize = 0;
    while i < es.len()
        invariant
            i <= es@.len(),
            untagged(*val) == YamlValue::Mapping(*es),
            forall|j: int|
                0 <= j < i ==> match value_str(#[trigger] es@[j].value) {
                    Some(s) => !(contains(s, "{{"@) && contains(s, "}}"@)),
                    None => true,
                },
        decreases es@.len() - i,
    {
        match as_str(&es[i].value) {
            Some(s) => {
                let c = chars_of(s);
                if contains_str(&c, "{{") && contains_str(&c, "}}") {
                    proof {
                        assert(value_str(es@[i as int].value) == Some(s@));
                        assert(has_interpolation(es@));
                    }
                    return true;
                }
            },
            None => {},
        }
        i = i + 1;
    }
    false
}

/// Policy section (nested under `policy:` in YAML).
#[derive(Debug)]
pub struct PolicyConfig {
    /// Failure policy.
    pub failure: Option<String>,
    /// Tripwire policy.
    pub tripwire: Option<YamlValue>,
    /// Lock file config.
    pub lock_file: Option<YamlValue>,
    /// Pre-apply hook.
    pub pre_apply: Option<String>,
    /// Post-apply hook.
    pub post_apply: Option<String>,
    /// Notify hooks.
    pub notify: Option<YamlValue>,
    /// SSH retries.
    pub ssh_retries: Option<u32>,
}

impl Default for PolicyConfig {
    /// A policy section that sets nothing.
    fn default() -> (p: PolicyConfig)
        ensures
            p.failure is None && p.tripwire is None && p.lock_file is None && p.pre_apply is None
                && p.post_apply is None && p.notify is None && p.ssh_retries is None,
    {
        PolicyConfig {
            failure: None,
            tripwire: None,
            lock_file: None,
            pre_apply: None,
            post_apply: None,
            notify: None,
            ssh_retries: None,
        }
    }
}

/// No two entries share a name (the recipe's `machines` and `resources` are
/// maps keyed by name).
pub open spec fn names_distinct(vs: Seq<NamedValue>) -> bool {
    forall|i: int, j: int|
        0 <= i < j < vs.len() ==> (#[trigger] vs[i]).name@ != (#[trigger] vs[j]).name@
}

/// Parsed recipe configuration for scoring analysis.
///
/// The recipe's `machines` and `resources` maps are held as named entries in
/// document order; as read from YAML their names are distinct (`well_formed`).
#[derive(Debug)]
pub struct RecipeConfig {
    /// Recipe name.
    pub name: String,
    /// Recipe version.
    pub version: String,
    /// Description field.
    pub description: Option<String>,
    /// Machines map.
    pub machines: Vec<NamedValue>,
    /// Resources map.
    pub resources: Vec<NamedValue>,
    /// Params with defaults.
    pub params: Option<YamlValue>,
    /// Outputs section.
    pub outputs: Option<YamlValue>,
    /// Includes.
    pub includes: Option<Vec<String>>,
    /// Policy section (nested).
    pub policy: Option<PolicyConfig>,
    /// Failure policy (top-level fallback).
    pub failure: Option<String>,
    /// Tripwire (top-level fallback).
    pub tripwire: Option<YamlValue>,
    /// Lock file (top-level fallback).
    pub lock_file: Option<String>,
    /// Pre-apply hook (top-level fallback).
    pub pre_apply: Option<String>,
    /// Post-apply hook (top-level fallback).
    pub post_apply: Option<String>,
    /// Notify hooks (top-level fallback).
    pub notify: Option<YamlValue>,
    /// SSH retries (top-level fallback).
    pub ssh_retries: Option<u32>,
}

/// Optional text taken by its characters.
pub open spec fn opt_text(o: Option<String>) -> Option<Seq<char>> {
    match o {
        Some(s) => Some(s@),
        None => None,
    }
}

/// Optional string slice taken by its characters.
pub open spec fn opt_str(o: Option<&str>) -> Option<Seq<char>> {
    match o {
        Some(s) => Some(s@),
        None => None,
    }
}

/// The setting of the policy section when it has one, else the top-level one.
pub open spec fn prefer<T>(nested: Option<T>, top: Option<T>) -> Option<T> {
    match nested {
        Some(x) => Some(x),
        None => top,
    }
}

impl RecipeConfig {
    /// A configuration as a recipe's YAML gives it: machine names are
    /// distinct, and so are resource names.
    pub open spec fn well_formed(self) -> bool {
        names_distinct(self.machines@) && names_distinct(self.resources@)
    }

    /// The policy section's value of a field, if there is a section.
    pub open spec fn policy_field<T>(self, f: spec_fn(PolicyConfig) -> Option<T>) -> Option<T> {
        match self.policy {
            Some(p) => f(p),
            None => None,
        }
    }

    /// Effective failure policy (policy section takes precedence).
    pub fn eff_failure(&self) -> (r: Option<&str>)
        ensures
            opt_str(r) == prefer(
                self.policy_field(|p: PolicyConfig| opt_text(p.failure)),
                opt_text(self.failure),
            ),
    {
        if let Some(p) = &self.policy {
            if let Some(f) = &p.failure {
                return Some(f.as_str());
            }
        }
        match &self.failure {
            Some(f) => Some(f.as_str()),
            None => None,
        }
    }

    /// Effective tripwire setting.
    pub fn eff_tripwire(&self) -> (r: Option<&YamlValue>)
        ensures
            match r {
                Some(v) => prefer(self.policy_field(|p: PolicyConfig| p.tripwire), self.tripwire)
                    == Some(*v),
                None => prefer(self.policy_field(|p: PolicyConfig| p.tripwire), self.tripwire) is None,
            },
    {
        if let Some(p) = &self.policy {
            if let Some(t) = &p.tripwire {
                return Some(t);
            }
        }
        match &self.tripwire {
            Some(t) => Some(t),
            None => None,
        }
    }

    /// Effective lock file setting: set in the policy section or at top level.
    pub fn eff_lock_file(&self) -> (b: bool)
        ensures
            b == (self.policy_field(|p: PolicyConfig| p.lock_file) is Some || self.lock_file is Some),
    {
        if let Some(p) = &self.policy {
            if p.lock_file.is_some() {
                return true;
            }
        }
        self.lock_file.is_some()
    }

    /// Effective pre-apply hook.
    pub fn eff_pre_apply(&self) -> (r: Option<&str>)
        ensures
            opt_str(r) == prefer(
                self.policy_field(|p: PolicyConfig| opt_text(p.pre_apply)),
                opt_text(self.pre_apply),
            ),
    {
        if let Some(p) = &self.policy {
            if let Some(h) = &p.pre_apply {
                return Some(h.as_str());
            }
        }
        match &self.pre_apply {
            Some(h) => Some(h.as_str()),
            None => None,
        }
    }

    /// Effective post-apply hook.
    pub fn eff_post_apply(&self) -> (r: Option<&str>)
        ensures
            opt_str(r) == prefer(
                self.policy_field(|p: PolicyConfig| opt_text(p.post_apply)),
                opt_text(self.post_apply),
            ),
    {
        if let Some(p) = &self.policy {
            if let Some(h) = &p.post_apply {
                return Some(h.as_str());
            }
        }
        match &self.post_apply {
            Some(h) => Some(h.as_str()),
            None => None,
        }
    }

    /// Effective notify hooks.
    pub fn eff_notify(&self) -> (r: Option<&YamlValue>)
        ensures
            match r {
                Some(v) => prefer(self.policy_field(|p: PolicyConfig| p.notify), self.notify)
                    == Some(*v),
                None => prefer(self.policy_field(|p: PolicyConfig| p.notify), self.notify) is None,
            },
    {
        if let Some(p) = &self.policy {
            if let Some(n) = &p.notify {
                return Some(n);
            }
        }
        match &self.notify {
            Some(n) => Some(n),
            None => None,
        }
    }

    /// Effective SSH retries.
    pub fn eff_ssh_retries(&self) -> (r: Option<u32>)
        ensures
            r == prefer(self.policy_field(|p: PolicyConfig| p.ssh_retries), self.ssh_retries),
    {
        if let Some(p) = &self.policy {
            if let Some(n) = p.ssh_retries {
                return Some(n);
            }
        }
        self.ssh_retries
    }
}

} // verus!
