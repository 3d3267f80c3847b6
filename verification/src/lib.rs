//! A terminal front end for proxy cores: the verified logic of its widgets,
//! trees, keymaps and configuration templates.

pub mod key;
pub mod fuzzy;
pub mod popmsg;
pub mod text;
pub mod sort;
pub mod tree;
pub mod tree_laws;
pub mod proxies;
pub mod yaml;
pub mod agent;
pub mod template;
pub mod json;
pub mod singbox;
pub mod selection;
pub mod profile_tab;
pub mod template_tab;
pub mod settings;
pub mod demo;
pub mod demo_profile;
pub mod demo_template;
pub mod term;
pub mod fuzzy_laws;
pub mod laws;
pub mod template_laws;
pub mod tree_toggle;
pub mod command;
pub mod bridge;
pub mod startup;
pub mod output_laws;
pub mod subscription;
pub mod sort_laws;
