use pako_core::config::{get_output_dir, parse_decimal, Config};
use pako_core::examples::{build_plugins, plugins_factory, Empty, EmptyWithConfig, ExamplePlugin};
use pako_core::plugin::{
    Event, Plugin, PluginBuilderError, PluginRegistry, PluginResult, PLUGIN_FLOW_NEW, PLUGIN_L3, PLUGIN_L4, PLUGIN_NONE,
};

#[derive(Debug)]
struct Counter {
    name: &'static str,
    mask: u16,
    seen: usize,
}

impl Plugin for Counter {
    fn name(&self) -> &'static str {
        self.name
    }
    fn plugin_type(&self) -> u16 {
        self.mask
    }
    fn handle_event(&mut self, _event: &Event, _data: &[u8]) {
        self.seen += 1;
    }
    fn get_result(&self) -> Option<PluginResult> {
        Some(PluginResult::Count(self.seen as u64))
    }
}

#[test]
fn registry_dispatch_by_capability_in_order() {
    let mut r: PluginRegistry<Counter> = PluginRegistry::new();
    assert!(r.is_empty());
    r.add_plugin(Counter { name: "a", mask: PLUGIN_L3 | PLUGIN_L4, seen: 0 }).unwrap();
    r.add_plugin(Counter { name: "b", mask: PLUGIN_FLOW_NEW, seen: 0 }).unwrap();
    r.add_plugin(Counter { name: "c", mask: PLUGIN_L4, seen: 0 }).unwrap();
    assert_eq!(
        r.add_plugin(Counter { name: "a", mask: PLUGIN_L4, seen: 0 }),
        Err(PluginBuilderError::DuplicateName)
    );
    assert_eq!(r.len(), 3);
    assert!(r.contains_name("c"));
    assert!(!r.contains_name("d"));
    assert_eq!(r.plugins_for_capability(PLUGIN_L4), vec![0, 2]);
    let k = pako_core::five_tuple::FiveTuple {
        src: pako_core::five_tuple::IpAddress::V4(1),
        dst: pako_core::five_tuple::IpAddress::V4(2),
        proto: 17,
        src_port: 1,
        dst_port: 2,
    };
    assert_eq!(r.dispatch(&Event::L4(k), b"x"), vec![0, 2]);
    assert_eq!(r.dispatch(&Event::FlowNew(k), b""), vec![1]);
    assert!(r.dispatch(&Event::L2, b"").is_empty());
    assert_eq!(r.get(0).seen, 1);
    assert_eq!(r.get(1).seen, 1);
    assert_eq!(r.get(2).seen, 1);
    assert_eq!(r.dispatch(&Event::L3(k), b""), vec![0]);
    assert_eq!(
        r.results(),
        vec![Some(PluginResult::Count(2)), Some(PluginResult::Count(1)), Some(PluginResult::Count(1))]
    );
}

#[test]
fn example_plugins_build() {
    let factory = plugins_factory();
    let mut config = Config::new();
    config.set("plugin.emptywithconfig.name", "demo");
    let plugins = build_plugins(&factory, &config);
    assert_eq!(plugins.storage.len(), 2);
    assert!(plugins.storage.contains_name("Empty"));
    assert!(plugins.storage.contains_name("EmptyWithConfig"));
    assert_eq!(plugins.failures, 0);
    match plugins.storage.get(1) {
        ExamplePlugin::EmptyWithConfig(p) => assert_eq!(p.configured_name(), Some("demo")),
        other => panic!("unexpected {:?}", other),
    }
    assert_eq!(Empty.plugin_type(), PLUGIN_NONE);
    assert_eq!(EmptyWithConfig::default().name(), "EmptyWithConfig");
    assert_eq!(plugins.storage.results(), vec![None, None]);
}

#[test]
fn config_lookups() {
    let mut c = Config::new();
    assert_eq!(get_output_dir(&c), ".");
    c.set("output_dir", "/tmp/out");
    c.set("threads", "8");
    c.set("threads", "12");
    c.set("bad", "12x");
    assert_eq!(get_output_dir(&c), "/tmp/out");
    assert_eq!(c.get("threads"), Some("12"));
    assert_eq!(c.get_usize("threads", 1), 12);
    assert_eq!(c.get_usize("bad", 1), 1);
    assert_eq!(c.get_usize("missing", 1), 1);
    assert_eq!(parse_decimal("007"), Some(7));
    assert_eq!(parse_decimal(""), None);
    assert_eq!(parse_decimal("99999999999999999999999"), None);
}
