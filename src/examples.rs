//! Example plugins and builders, and the factory that lists the builders a
//! run starts from.
use vstd::prelude::*;

use crate::config::{lookup, Config};
use crate::plugin::{Plugin, PluginBuilder, PluginBuilderError, PluginRegistry, PLUGIN_NONE};

verus! {

/// Example plugin, without configuration.
#[derive(Debug, Default)]
pub struct Empty;

impl Plugin for Empty {
    fn name(&self) -> &'static str {
        "Empty"
    }

    fn plugin_type(&self) -> u16 {
        PLUGIN_NONE
    }
}

/// Example plugin, reading a configuration value.
#[derive(Debug, Default)]
pub struct EmptyWithConfig {
    name: Option<String>,
}

impl EmptyWithConfig {
    /// The configured name, if any.
    pub closed spec fn configured(&self) -> Option<Seq<char>> {
        match self.name {
            Some(n) => Some(n@),
            None => None,
        }
    }

    /// The configured name, if any.
    pub fn configured_name(&self) -> (r: Option<&str>)
        ensures
            match r {
                Some(s) => self.configured() == Some(s@),
                None => self.configured() is None,
            },
    {
        match &self.name {
            Some(n) => Some(n.as_str()),
            None => None,
        }
    }
}

impl Plugin for EmptyWithConfig {
    fn name(&self) -> &'static str {
        "EmptyWithConfig"
    }

    fn plugin_type(&self) -> u16 {
        PLUGIN_NONE
    }
}

/// The example plugins, as one type a registry can hold.
#[derive(Debug)]
pub enum ExamplePlugin {
    Empty(Empty),
    EmptyWithConfig(EmptyWithConfig),
}

impl Plugin for ExamplePlugin {
    fn name(&self) -> &'static str {
        match self {
            ExamplePlugin::Empty(p) => p.name(),
            ExamplePlugin::EmptyWithConfig(p) => p.name(),
        }
    }

    fn plugin_type(&self) -> u16 {
        match self {
            ExamplePlugin::Empty(p) => p.plugin_type(),
            ExamplePlugin::EmptyWithConfig(p) => p.plugin_type(),
        }
    }
}

/// Builds an `Empty` plugin.
#[derive(Debug, Clone, Copy)]
pub struct EmptyBuilder;

/// Builds an `EmptyWithConfig` plugin named by the setting
/// `plugin.emptywithconfig.name`.
#[derive(Debug, Clone, Copy)]
pub struct EmptyWithConfigBuilder;

/// The example builders, as one type a factory can list.
#[derive(Debug, Clone, Copy)]
pub enum ExampleBuilder {
    Empty(EmptyBuilder),
    EmptyWithConfig(EmptyWithConfigBuilder),
}

/// Name of the plugin a builder makes.
pub open spec fn built_name(b: ExampleBuilder) -> Seq<char> {
    match b {
        ExampleBuilder::Empty(_) => "Empty"@,
        ExampleBuilder::EmptyWithConfig(_) => "EmptyWithConfig"@,
    }
}

/// Names in a registry after adding a plugin named `n`: unchanged when
/// the name is taken.
pub open spec fn names_after_add(names: Seq<Seq<char>>, n: Seq<char>) -> Seq<Seq<char>> {
    if names.contains(n) {
        names
    } else {
        names.push(n)
    }
}

/// The plugin a builder makes from configuration `c`: an `EmptyWithConfig`
/// carries the setting `plugin.emptywithconfig.name`.
pub open spec fn plugin_built(b: ExampleBuilder, c: Seq<(Seq<char>, Seq<char>)>, p: ExamplePlugin) -> bool {
    match b {
        ExampleBuilder::Empty(_) => p is Empty,
        ExampleBuilder::EmptyWithConfig(_) => match p {
            ExamplePlugin::EmptyWithConfig(q) => q.configured() == lookup(c, "plugin.emptywithconfig.name"@),
            _ => false,
        },
    }
}

impl ExampleBuilder {
    /// Build this builder's plugin into `registry`.
    pub fn build_example(&self, registry: &mut PluginRegistry<ExamplePlugin>, config: &Config) -> (r: Result<
        (),
        PluginBuilderError,
    >)
        requires
            old(registry).wf(),
        ensures
            final(registry).wf(),
            final(registry).names() == names_after_add(old(registry).names(), built_name(*self)),
            r is Err <==> old(registry).names().contains(built_name(*self)),
            r is Err ==> r == Err::<(), PluginBuilderError>(PluginBuilderError::DuplicateName),
            r is Err ==> final(registry).masks() == old(registry).masks(),
            r is Err ==> final(registry).plugins() == old(registry).plugins(),
            r is Ok ==> final(registry).masks() == old(registry).masks().push(PLUGIN_NONE),
            r is Ok ==> final(registry).plugins().len() == old(registry).plugins().len() + 1,
            r is Ok ==> final(registry).plugins().drop_last() == old(registry).plugins(),
            r is Ok ==> plugin_built(*self, config@, final(registry).plugins().last()),
    {
        match self {
            ExampleBuilder::Empty(_) => {
                let r = registry.register(ExamplePlugin::Empty(Empty), "Empty", PLUGIN_NONE);
                assert(r is Ok ==> registry.plugins().drop_last() =~= old(registry).plugins());
                r
            },
            ExampleBuilder::EmptyWithConfig(_) => {
                let name = match config.get("plugin.emptywithconfig.name") {
                    Some(s) => Some(s.to_owned()),
                    None => None,
                };
                let p = ExamplePlugin::EmptyWithConfig(EmptyWithConfig { name });
                let r = registry.register(p, "EmptyWithConfig", PLUGIN_NONE);
                assert(r is Ok ==> registry.plugins().drop_last() =~= old(registry).plugins());
                r
            },
        }
    }
}

impl PluginBuilder<ExamplePlugin> for ExampleBuilder {
    fn name(&self) -> &'static str {
        match self {
            ExampleBuilder::Empty(_) => "EmptyBuilder",
            ExampleBuilder::EmptyWithConfig(_) => "EmptyWithConfigBuilder",
        }
    }

    fn build(&self, registry: &mut PluginRegistry<ExamplePlugin>, config: &Config) -> (r: Result<
        (),
        PluginBuilderError,
    >) {
        let ghost before = registry.names();
        let r = self.build_example(registry, config);
        assert(before.is_prefix_of(registry.names()));
        r
    }
}

/// The builders a run starts from.
#[derive(Debug)]
pub struct PluginsFactory {
    list: Vec<ExampleBuilder>,
}

impl PluginsFactory {
    pub closed spec fn builders(&self) -> Seq<ExampleBuilder> {
        self.list@
    }
}

/// The built plugins, and how many builders failed.
pub struct Plugins {
    pub storage: PluginRegistry<ExamplePlugin>,
    pub failures: usize,
}

/// The factory listing every example builder.
pub fn plugins_factory() -> (r: PluginsFactory)
    ensures
        r.builders() == seq![
            ExampleBuilder::Empty(EmptyBuilder),
            ExampleBuilder::EmptyWithConfig(EmptyWithConfigBuilder),
        ],
{
    let mut v: Vec<ExampleBuilder> = Vec::new();
    v.push(ExampleBuilder::Empty(EmptyBuilder));
    v.push(ExampleBuilder::EmptyWithConfig(EmptyWithConfigBuilder));
    assert(v@ =~= seq![ExampleBuilder::Empty(EmptyBuilder), ExampleBuilder::EmptyWithConfig(EmptyWithConfigBuilder)]);
    PluginsFactory { list: v }
}

/// Registry names after running `builders` in order on an empty registry.
pub open spec fn names_after_builders(builders: Seq<ExampleBuilder>) -> Seq<Seq<char>>
    decreases builders.len(),
{
    if builders.len() == 0 {
        seq![]
    } else {
        names_after_add(names_after_builders(builders.drop_last()), built_name(builders.last()))
    }
}

/// Number of builders that fail when run in order on an empty registry.
pub open spec fn failures_of_builders(builders: Seq<ExampleBuilder>) -> nat
    decreases builders.len(),
{
    if builders.len() == 0 {
        0
    } else {
        failures_of_builders(builders.drop_last()) + if names_after_builders(builders.drop_last()).contains(
            built_name(builders.last()),
        ) {
            1nat
        } else {
            0nat
        }
    }
}

/// Run every builder of the factory, in order. A builder that fails does not
/// stop the others; failures are counted.
pub fn build_plugins(factory: &PluginsFactory, config: &Config) -> (r: Plugins)
    ensures
        r.storage.wf(),
        r.storage.names() == names_after_builders(factory.builders()),
        r.failures == failures_of_builders(factory.builders()),
{
    let mut registry: PluginRegistry<ExamplePlugin> = PluginRegistry::new();
    let mut failures: usize = 0;
    let mut i: usize = 0;
    assert(registry.names() =~= names_after_builders(factory.list@.take(0)));
    while i < factory.list.len()
        invariant
            i <= factory.list.len(),
            registry.wf(),
            registry.names() == names_after_builders(factory.list@.take(i as int)),
            failures == failures_of_builders(factory.list@.take(i as int)),
            failures <= i,
        decreases factory.list.len() - i,
    {
        proof {
            assert(factory.list@.take(i + 1).drop_last() == factory.list@.take(i as int));
            assert(factory.list@.take(i + 1).last() == factory.list@[i as int]);
        }
        let b = factory.list[i];
        match b.build_example(&mut registry, config) {
            Ok(()) => {},
            Err(_) => {
                failures = failures + 1;
            },
        }
        i += 1;
    }
    assert(factory.list@.take(factory.list.len() as int) == factory.list@);
    Plugins { storage: registry, failures }
}

} // verus!
