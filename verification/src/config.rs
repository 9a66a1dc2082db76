//! The node's configuration.

use crate::codec::clone_texts;
use crate::codec::texts_view;
use vstd::prelude::*;

verus! {

/// Where the configuration is read from when no path is given.
pub const DEFAULT_CONFIG_PATH: &'static str = "run/config.json";

/// The settings a node starts with.
#[derive(Debug)]
pub struct Config {
    keystore_path: String,
    validator: String,
    port: i64,
    storage_path: String,
    genesis_path: String,
    nodes: Vec<String>,
}

/// A configuration as plain values.
pub struct ConfigView {
    pub keystore_path: Seq<char>,
    pub validator: Seq<char>,
    pub port: i64,
    pub storage_path: Seq<char>,
    pub genesis_path: Seq<char>,
    pub nodes: Seq<Seq<char>>,
}

impl View for Config {
    type V = ConfigView;

    closed spec fn view(&self) -> ConfigView {
        ConfigView {
            keystore_path: self.keystore_path@,
            validator: self.validator@,
            port: self.port,
            storage_path: self.storage_path@,
            genesis_path: self.genesis_path@,
            nodes: texts_view(self.nodes@),
        }
    }
}

impl Clone for Config {
    fn clone(&self) -> (config: Config)
        ensures
            config@ == self@,
    {
        Config {
            keystore_path: self.keystore_path.clone(),
            validator: self.validator.clone(),
            port: self.port,
            storage_path: self.storage_path.clone(),
            genesis_path: self.genesis_path.clone(),
            nodes: clone_texts(&self.nodes),
        }
    }
}

impl Config {
    /// A configuration from its parts.
    pub fn new(
        keystore_path: String,
        validator: String,
        port: i64,
        storage_path: String,
        genesis_path: String,
        nodes: Vec<String>,
    ) -> (config: Config)
        ensures
            config@ == (ConfigView {
                keystore_path: keystore_path@,
                validator: validator@,
                port,
                storage_path: storage_path@,
                genesis_path: genesis_path@,
                nodes: texts_view(nodes@),
            }),
    {
        Config { keystore_path, validator, port, storage_path, genesis_path, nodes }
    }

    /// The port to listen on.
    pub fn port(&self) -> (port: i64)
        ensures
            port == self@.port,
    {
        self.port
    }

    /// The path of the genesis manifest.
    pub fn genesis_path(&self) -> (path: String)
        ensures
            path@ == self@.genesis_path,
    {
        self.genesis_path.clone()
    }

    /// The address of the wallet this node validates with.
    pub fn validator(&self) -> (validator: String)
        ensures
            validator@ == self@.validator,
    {
        self.validator.clone()
    }

    /// The directory of the key-value store.
    pub fn storage_path(&self) -> (path: String)
        ensures
            path@ == self@.storage_path,
    {
        self.storage_path.clone()
    }

    /// The directory of the sealed wallets.
    pub fn keystore_path(&self) -> (path: String)
        ensures
            path@ == self@.keystore_path,
    {
        self.keystore_path.clone()
    }

    /// The peers to start from; none means no catching up.
    pub fn nodes(&self) -> (nodes: Vec<String>)
        ensures
            texts_view(nodes@) == self@.nodes,
    {
        clone_texts(&self.nodes)
    }
}

} // verus!
