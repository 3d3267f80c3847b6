use vstd::prelude::*;

use crate::json::Json;
use crate::yaml::{Yaml, YamlMap};

verus! {

/// A YAML value as serde_yml reads it.
#[verifier::external_type_specification]
#[verifier::external_body]
pub struct ExYamlValue(serde_yml::Value);

/// A YAML mapping as serde_yml reads it (its keys are strings).
#[verifier::external_type_specification]
#[verifier::external_body]
pub struct ExYamlMapping(serde_yml::Mapping);

/// A JSON value as serde_json reads it.
#[verifier::external_type_specification]
#[verifier::external_body]
pub struct ExJsonValue(serde_json::Value);

/// Converts a serde_yml value into the library's tree, one node for one node;
/// a number keeps the text serde_yml prints for it. Nothing is claimed: the
/// contracts of the parsing wrappers that use it name the converted result.
#[verifier::external_body]
pub(crate) fn yaml_of(v: &serde_yml::Value) -> Yaml {
    match v {
        serde_yml::Value::Null => Yaml::Null,
        serde_yml::Value::Bool(b) => Yaml::Bool(*b),
        serde_yml::Value::Number(n) => Yaml::Number(n.to_string()),
        serde_yml::Value::String(s) => Yaml::String(s.clone()),
        serde_yml::Value::Sequence(items) => Yaml::Sequence(items.iter().map(yaml_of).collect()),
        serde_yml::Value::Mapping(m) => Yaml::Mapping(yaml_map_of(m)),
        serde_yml::Value::Tagged(t) => Yaml::Tagged(t.tag().to_string(), Box::new(yaml_of(t.value()))),
    }
}

/// Converts a serde_yml mapping into the library's mapping, entry for entry,
/// in order. Nothing is claimed, as for `yaml_of`.
#[verifier::external_body]
pub(crate) fn yaml_map_of(m: &serde_yml::Mapping) -> YamlMap {
    YamlMap { entries: m.iter().map(|(k, v)| (Yaml::String(k.clone()), yaml_of(v))).collect() }
}

/// Converts the library's tree back into a serde_yml value, node for node;
/// `None` when a number's text is not one serde_yml reads or a mapping key is
/// not a string. Nothing is claimed, as for `yaml_of`.
#[verifier::external_body]
pub(crate) fn yaml_value_of(y: &Yaml) -> Option<serde_yml::Value> {
    Some(match y {
        Yaml::Null => serde_yml::Value::Null,
        Yaml::Bool(b) => serde_yml::Value::Bool(*b),
        Yaml::Number(s) => serde_yml::Value::Number(s.parse().ok()?),
        Yaml::String(s) => serde_yml::Value::String(s.clone()),
        Yaml::Sequence(items) => serde_yml::Value::Sequence(items.iter().map(yaml_value_of).collect::<Option<_>>()?),
        Yaml::Mapping(m) => serde_yml::Value::Mapping(yaml_mapping_value_of(m)?),
        Yaml::Tagged(t, b) => serde_yml::Value::Tagged(
            Box::new(serde_yml::TaggedValue::new(serde_yml::Tag::new(t.clone()), yaml_value_of(b)?)),
        ),
    })
}

/// Converts the library's mapping back into a serde_yml mapping, entry for
/// entry; `None` as for `yaml_value_of`. Nothing is claimed.
#[verifier::external_body]
pub(crate) fn yaml_mapping_value_of(m: &YamlMap) -> Option<serde_yml::Mapping> {
    let mut out = serde_yml::Mapping::new();
    for (k, v) in &m.entries {
        let key = match k {
            Yaml::String(ks) => ks.clone(),
            _ => return None,
        };
        out.insert(key, yaml_value_of(v)?);
    }
    Some(out)
}

/// Converts a serde_json value into the library's tree, node for node; a
/// number keeps the text serde_json prints for it. Nothing is claimed, as for
/// `yaml_of`.
#[verifier::external_body]
pub(crate) fn json_of(v: &serde_json::Value) -> Json {
    match v {
        serde_json::Value::Null => Json::Null,
        serde_json::Value::Bool(b) => Json::Bool(*b),
        serde_json::Value::Number(n) => Json::Number(n.to_string()),
        serde_json::Value::String(s) => Json::Str(s.clone()),
        serde_json::Value::Array(items) => Json::Array(items.iter().map(json_of).collect()),
        serde_json::Value::Object(m) => Json::Object(m.iter().map(|(k, v)| (k.clone(), json_of(v))).collect()),
    }
}

} // verus!
