//! Plugins: analysis modules that declare which events they observe by a
//! capability mask, and the registry that holds them and dispatches events to
//! them in registration order.
use vstd::prelude::*;

use crate::config::Config;
use crate::five_tuple::FiveTuple;

verus! {

pub const PLUGIN_NONE: u16 = 0;
/// Observes every frame at the link layer.
pub const PLUGIN_L2: u16 = 0b0_0001;
/// Observes every packet with a network-layer flow.
pub const PLUGIN_L3: u16 = 0b0_0010;
/// Observes every complete transport-layer payload.
pub const PLUGIN_L4: u16 = 0b0_0100;
/// Is told when a flow is created.
pub const PLUGIN_FLOW_NEW: u16 = 0b0_1000;
/// Is told when a flow is removed.
pub const PLUGIN_FLOW_DEL: u16 = 0b1_0000;
pub const PLUGIN_ALL: u16 = 0b1_1111;

/// What the pipeline reports to plugins, in the order it happens.
#[derive(Clone, Copy, Debug, PartialEq, Eq, Structural)]
pub enum Event {
    /// A frame, at the link layer.
    L2,
    /// A flow was created; its key.
    FlowNew(FiveTuple),
    /// A packet of a flow, at the network layer.
    L3(FiveTuple),
    /// A transport payload of a flow (after defragmentation, if any).
    L4(FiveTuple),
    /// A flow was removed; its key.
    FlowDel(FiveTuple),
}

/// The capability bit that makes a plugin observe an event.
pub open spec fn event_capability(e: Event) -> u16 {
    match e {
        Event::L2 => PLUGIN_L2,
        Event::FlowNew(_) => PLUGIN_FLOW_NEW,
        Event::L3(_) => PLUGIN_L3,
        Event::L4(_) => PLUGIN_L4,
        Event::FlowDel(_) => PLUGIN_FLOW_DEL,
    }
}

/// The capability bit that makes a plugin observe an event.
pub fn capability_of(e: &Event) -> (r: u16)
    ensures
        r == event_capability(*e),
{
    match e {
        Event::L2 => PLUGIN_L2,
        Event::FlowNew(_) => PLUGIN_FLOW_NEW,
        Event::L3(_) => PLUGIN_L3,
        Event::L4(_) => PLUGIN_L4,
        Event::FlowDel(_) => PLUGIN_FLOW_DEL,
    }
}

/// The mask shares a bit with `cap`.
pub open spec fn has_capability(mask: u16, cap: u16) -> bool {
    mask & cap != 0
}

/// Whether `mask` has any bit of `cap`.
pub fn mask_has(mask: u16, cap: u16) -> (r: bool)
    ensures
        r == has_capability(mask, cap),
{
    mask & cap != 0
}

/// An analysis module.
pub trait Plugin {
    /// The plugin's name, unique within a registry.
    fn name(&self) -> &'static str;

    /// The plugin's capability mask.
    fn plugin_type(&self) -> u16;

    /// Called once before the first packet.
    fn pre_process(&mut self) {
    }

    /// Called once after the last packet.
    fn post_process(&mut self) {
    }

    /// Observe one event; `data` holds the bytes it concerns (the frame, the
    /// network datagram or the transport payload; empty for flow events).
    fn handle_event(&mut self, event: &Event, data: &[u8]) {
    }

    /// The plugin's result, if it produces one.
    fn get_result(&self) -> Option<PluginResult> {
        None
    }
}

/// A plugin's result at the end of a run: a self-describing value, so that
/// a caller matches on it rather than casting.
#[derive(Clone, Debug, PartialEq, Eq)]
pub enum PluginResult {
    Count(u64),
    Text(String),
    Bytes(Vec<u8>),
    /// A value of a shape known to the caller by its tag.
    Tagged(String, Vec<u8>),
}

/// Why a plugin or builder could not be registered.
#[derive(Clone, Copy, Debug, PartialEq, Eq, Structural)]
pub enum PluginBuilderError {
    /// A plugin with the same name is already registered.
    DuplicateName,
    /// The builder declined (for instance, a resource it needs is missing).
    Declined,
}

/// Constructs plugins from a configuration and registers them.
pub trait PluginBuilder<P: Plugin> {
    fn name(&self) -> &'static str;

    /// Build zero or more plugins into `registry`; the plugins already there stay.
    fn build(&self, registry: &mut PluginRegistry<P>, config: &Config) -> (r: Result<(), PluginBuilderError>)
        requires
            old(registry).wf(),
        ensures
            final(registry).wf(),
            old(registry).names().is_prefix_of(final(registry).names()),
    ;
}

/// The registered plugins, each with the name and capability mask it
/// declared when added.
pub struct PluginRegistry<P> {
    plugins: Vec<P>,
    names: Vec<String>,
    masks: Vec<u16>,
}

/// Positions, in order, of the masks that have a bit of `cap`.
pub open spec fn positions_with(masks: Seq<u16>, cap: u16) -> Seq<usize>
    decreases masks.len(),
{
    if masks.len() == 0 {
        seq![]
    } else {
        let prev = positions_with(masks.drop_last(), cap);
        if has_capability(masks.last(), cap) {
            prev.push((masks.len() - 1) as usize)
        } else {
            prev
        }
    }
}

impl<P: Plugin> PluginRegistry<P> {
    /// Names of the plugins, in registration order.
    pub closed spec fn names(&self) -> Seq<Seq<char>> {
        self.names@.map_values(|s: String| s@)
    }

    /// The plugins, in registration order.
    pub closed spec fn plugins(&self) -> Seq<P> {
        self.plugins@
    }

    /// Capability masks of the plugins, in registration order.
    pub closed spec fn masks(&self) -> Seq<u16> {
        self.masks@
    }

    pub closed spec fn wf(&self) -> bool {
        &&& self.plugins.len() == self.names.len()
        &&& self.masks.len() == self.names.len()
        &&& self.names().no_duplicates()
    }

    /// An empty registry.
    pub fn new() -> (r: PluginRegistry<P>)
        ensures
            r.wf(),
            r.names().len() == 0,
            r.masks().len() == 0,
    {
        let r = PluginRegistry { plugins: Vec::new(), names: Vec::new(), masks: Vec::new() };
        assert(r.names() =~= Seq::<Seq<char>>::empty());
        r
    }

    /// Number of plugins.
    pub fn len(&self) -> (r: usize)
        requires
            self.wf(),
        ensures
            r == self.names().len(),
    {
        self.names.len()
    }

    /// Whether no plugin is registered.
    pub fn is_empty(&self) -> (r: bool)
        requires
            self.wf(),
        ensures
            r == (self.names().len() == 0),
    {
        self.names.len() == 0
    }

    /// Whether a plugin of that name is registered.
    pub fn contains_name(&self, name: &str) -> (r: bool)
        requires
            self.wf(),
        ensures
            r == self.names().contains(name@),
    {
        let n = name.to_owned();
        let mut i: usize = 0;
        while i < self.names.len()
            invariant
                i <= self.names.len(),
                n@ == name@,
                forall|j: int| 0 <= j < i ==> (#[trigger] self.names@[j])@ != name@,
            decreases self.names.len() - i,
        {
            if self.names[i] == n {
                assert(self.names()[i as int] == name@);
                return true;
            }
            i += 1;
        }
        assert forall|j: int| 0 <= j < self.names().len() implies #[trigger] self.names()[j] != name@ by {
            assert(self.names()[j] == self.names@[j]@);
        }
        false
    }

    /// Register `plugin` under `name` with capability mask `mask`, unless a
    /// plugin of that name is there.
    pub fn register(&mut self, plugin: P, name: &str, mask: u16) -> (r: Result<(), PluginBuilderError>)
        requires
            old(self).wf(),
        ensures
            final(self).wf(),
            old(self).names().contains(name@) ==> r == Err::<(), PluginBuilderError>(
                PluginBuilderError::DuplicateName,
            ) && final(self).names() == old(self).names() && final(self).masks() == old(self).masks(),
            !old(self).names().contains(name@) ==> r is Ok && final(self).names() == old(self).names().push(
                name@,
            ) && final(self).masks() == old(self).masks().push(mask),
            r is Ok ==> final(self).plugins() == old(self).plugins().push(plugin),
            r is Err ==> final(self).plugins() == old(self).plugins(),
    {
        if self.contains_name(name) {
            return Err(PluginBuilderError::DuplicateName);
        }
        let ghost before = self.names();
        self.plugins.push(plugin);
        self.names.push(name.to_owned());
        self.masks.push(mask);
        assert(self.names() =~= before.push(name@));
        Ok(())
    }

    /// Register a plugin under the name and mask it declares, unless a
    /// plugin of that name is there.
    pub fn add_plugin(&mut self, plugin: P) -> (r: Result<(), PluginBuilderError>)
        requires
            old(self).wf(),
        ensures
            final(self).wf(),
            r is Err ==> r == Err::<(), PluginBuilderError>(PluginBuilderError::DuplicateName),
            r is Err ==> final(self).names() == old(self).names() && final(self).masks() == old(self).masks(),
            r is Ok ==> final(self).names().len() == old(self).names().len() + 1,
            r is Ok ==> final(self).names().drop_last() == old(self).names(),
            r is Ok ==> !old(self).names().contains(final(self).names().last()),
            r is Ok ==> final(self).masks().drop_last() == old(self).masks(),
            r is Ok ==> final(self).plugins() == old(self).plugins().push(plugin),
            r is Err ==> final(self).plugins() == old(self).plugins(),
    {
        let name = plugin.name();
        let mask = plugin.plugin_type();
        let r = self.register(plugin, name, mask);
        proof {
            if r is Ok {
                assert(self.names().drop_last() =~= old(self).names());
                assert(self.masks().drop_last() =~= old(self).masks());
            }
        }
        r
    }

    /// Positions of the plugins whose mask has a bit of `cap`, in
    /// registration order.
    pub fn plugins_for_capability(&self, cap: u16) -> (r: Vec<usize>)
        requires
            self.wf(),
        ensures
            r@ == positions_with(self.masks(), cap),
    {
        let mut r: Vec<usize> = Vec::new();
        let mut i: usize = 0;
        while i < self.masks.len()
            invariant
                i <= self.masks.len(),
                r@ == positions_with(self.masks@.take(i as int), cap),
            decreases self.masks.len() - i,
        {
            proof {
                assert(self.masks@.take(i + 1).drop_last() == self.masks@.take(i as int));
            }
            if mask_has(self.masks[i], cap) {
                r.push(i);
            }
            i += 1;
        }
        assert(self.masks@.take(self.masks.len() as int) == self.masks@);
        r
    }

    /// The plugin at position `i`.
    pub fn get(&self, i: usize) -> (r: &P)
        requires
            self.wf(),
            i < self.names().len(),
        ensures
            *r == self.plugins()[i as int],
    {
        &self.plugins[i]
    }

    /// Hand the event to every plugin that observes it, in registration
    /// order; returns their positions.
    pub fn dispatch(&mut self, event: &Event, data: &[u8]) -> (r: Vec<usize>)
        requires
            old(self).wf(),
        ensures
            final(self).wf(),
            final(self).names() == old(self).names(),
            final(self).masks() == old(self).masks(),
            r@ == positions_with(old(self).masks(), event_capability(*event)),
            final(self).plugins().len() == old(self).plugins().len(),
            forall|i: int|
                0 <= i < old(self).plugins().len() && !has_capability(
                    #[trigger] old(self).masks()[i],
                    event_capability(*event),
                ) ==> final(self).plugins()[i] == old(self).plugins()[i],
    {
        let cap = capability_of(event);
        let mut r: Vec<usize> = Vec::new();
        let mut i: usize = 0;
        while i < self.masks.len()
            invariant
                i <= self.masks.len(),
                self.wf(),
                self.names() == old(self).names(),
                self.masks() == old(self).masks(),
                cap == event_capability(*event),
                r@ == positions_with(self.masks@.take(i as int), cap),
                self.plugins.len() == old(self).plugins.len(),
                forall|j: int|
                    #![trigger old(self).plugins@[j]]
                    0 <= j < old(self).plugins.len() && (i <= j || !has_capability(old(self).masks@[j], cap))
                        ==> self.plugins@[j] == old(self).plugins@[j],
            decreases self.masks.len() - i,
        {
            proof {
                assert(self.masks@.take(i + 1).drop_last() == self.masks@.take(i as int));
            }
            let ghost at_start = self.plugins@;
            let matched = mask_has(self.masks[i], cap);
            if matched {
                let ghost before = self.plugins@;
                let mut p = self.plugins.remove(i);
                p.handle_event(event, data);
                self.plugins.insert(i, p);
                assert forall|j: int| 0 <= j < self.plugins.len() && j != i implies self.plugins@[j] == before[j] by {
                    if j < i {
                        assert(self.plugins@[j] == before[j]);
                    } else {
                        assert(self.plugins@[j] == before[j]);
                    }
                }
                r.push(i);
            }
            assert(self.masks@ == old(self).masks@);
            assert(!matched ==> self.plugins@ == at_start);
            assert(matched ==> forall|j: int| 0 <= j < self.plugins.len() && j != i ==> self.plugins@[j] == at_start[j]);
            assert forall|j: int|
                #![trigger old(self).plugins@[j]]
                0 <= j < old(self).plugins.len() && (i + 1 <= j || !has_capability(old(self).masks@[j], cap))
                    implies self.plugins@[j] == old(self).plugins@[j] by {
                assert(at_start[j] == old(self).plugins@[j]);
                assert(self.plugins@[j] == at_start[j]);
            }
            i += 1;
        }
        assert(self.masks@.take(self.masks.len() as int) == self.masks@);
        r
    }

    /// The result of each plugin, in registration order.
    pub fn results(&self) -> (r: Vec<Option<PluginResult>>)
        requires
            self.wf(),
        ensures
            r.len() == self.names().len(),
    {
        let mut r: Vec<Option<PluginResult>> = Vec::new();
        let mut i: usize = 0;
        while i < self.plugins.len()
            invariant
                i <= self.plugins.len(),
                r.len() == i,
            decreases self.plugins.len() - i,
        {
            r.push(self.plugins[i].get_result());
            i += 1;
        }
        r
    }

    /// Run `pre_process` on every plugin, in registration order.
    pub fn pre_process_all(&mut self)
        requires
            old(self).wf(),
        ensures
            final(self).wf(),
            final(self).names() == old(self).names(),
            final(self).masks() == old(self).masks(),
    {
        let mut i: usize = 0;
        while i < self.plugins.len()
            invariant
                i <= self.plugins.len(),
                self.wf(),
                self.names() == old(self).names(),
                self.masks() == old(self).masks(),
            decreases self.plugins.len() - i,
        {
            let mut p = self.plugins.remove(i);
            p.pre_process();
            self.plugins.insert(i, p);
            i += 1;
        }
    }

    /// Run `post_process` on every plugin, in registration order.
    pub fn post_process_all(&mut self)
        requires
            old(self).wf(),
        ensures
            final(self).wf(),
            final(self).names() == old(self).names(),
            final(self).masks() == old(self).masks(),
    {
        let mut i: usize = 0;
        while i < self.plugins.len()
            invariant
                i <= self.plugins.len(),
                self.wf(),
                self.names() == old(self).names(),
                self.masks() == old(self).masks(),
            decreases self.plugins.len() - i,
        {
            let mut p = self.plugins.remove(i);
            p.post_process();
            self.plugins.insert(i, p);
            i += 1;
        }
    }
}

} // verus!
