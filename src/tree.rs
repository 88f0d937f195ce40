use vstd::prelude::*;
use crate::manifest::{Manifest, ManifestV, SubCmdMeta, SubCmdMetaV};
use crate::registry::views_of;
use crate::admission::{builtin_names, is_builtin};

verus! {

/// A plugin's node under the root of the command tree. A plugin that
/// declares subcommands gets one child per subcommand, each of which takes
/// trailing tokens; one that declares none takes them itself.
#[derive(Clone, Debug, PartialEq, Eq)]
pub struct PluginNode {
    pub name: String,
    pub about: String,
    pub takes_trailing: bool,
    pub subcommands: Vec<SubCmdMeta>,
}

pub struct PluginNodeV {
    pub name: Seq<char>,
    pub about: Seq<char>,
    pub takes_trailing: bool,
    pub subcommands: Seq<SubCmdMetaV>,
}

impl View for PluginNode {
    type V = PluginNodeV;

    open spec fn view(&self) -> PluginNodeV {
        PluginNodeV {
            name: self.name@,
            about: self.about@,
            takes_trailing: self.takes_trailing,
            subcommands: self.subcommands@.map_values(|c: SubCmdMeta| c@),
        }
    }
}

pub open spec fn nodes_view(v: Seq<PluginNode>) -> Seq<PluginNodeV> {
    v.map_values(|n: PluginNode| n@)
}

pub open spec fn node_of(m: ManifestV) -> PluginNodeV {
    PluginNodeV {
        name: m.name,
        about: m.description,
        takes_trailing: m.commands.len() == 0,
        subcommands: m.commands,
    }
}

/// Whether the `i`-th manifest gets a node: its name is no built-in command
/// (those win) and no later manifest has the same name (the last one wins).
pub open spec fn shown(ms: Seq<ManifestV>, i: int) -> bool {
    &&& !builtin_names().contains(ms[i].name)
    &&& forall|j: int| i < j < ms.len() ==> #[trigger] ms[j].name != ms[i].name
}

pub open spec fn nodes_upto(ms: Seq<ManifestV>, k: int) -> Seq<PluginNodeV>
    decreases k,
{
    if k <= 0 {
        Seq::empty()
    } else {
        let rest = nodes_upto(ms, k - 1);
        if shown(ms, k - 1) {
            rest.push(node_of(ms[k - 1]))
        } else {
            rest
        }
    }
}

/// The plugin nodes of the command tree, in listing order.
pub open spec fn command_tree(ms: Seq<ManifestV>) -> Seq<PluginNodeV> {
    nodes_upto(ms, ms.len() as int)
}

fn copy_sub(c: &SubCmdMeta) -> (r: SubCmdMeta)
    ensures
        r@ == c@,
{
    SubCmdMeta { name: c.name.clone(), description: c.description.clone() }
}

/// The node that stands for one plugin.
pub fn plugin_node(m: &Manifest) -> (r: PluginNode)
    ensures
        r@ == node_of(m@),
{
    let mut subs: Vec<SubCmdMeta> = Vec::new();
    let mut i: usize = 0;
    while i < m.commands.len()
        invariant
            i <= m.commands@.len(),
            subs@.len() == i,
            forall|k: int| 0 <= k < i ==> #[trigger] subs@[k]@ == m.commands@[k]@,
        decreases m.commands@.len() - i,
    {
        subs.push(copy_sub(&m.commands[i]));
        i = i + 1;
    }
    let r = PluginNode {
        name: m.name.clone(),
        about: m.description.clone(),
        takes_trailing: m.commands.len() == 0,
        subcommands: subs,
    };
    assert(r@.subcommands =~= m@.commands);
    r
}

fn named_later(ms: &Vec<Manifest>, i: usize) -> (r: bool)
    requires
        i < ms@.len(),
    ensures
        r == exists|j: int| i < j < ms@.len() && #[trigger] views_of(ms@)[j].name == ms@[i as int]@.name,
{
    let ghost vs = views_of(ms@);
    let n = ms.len();
    let mut j: usize = i + 1;
    while j < ms.len()
        invariant
            i < j <= ms@.len(),
            vs == views_of(ms@),
            forall|t: int| i < t < j ==> #[trigger] vs[t].name != ms@[i as int]@.name,
        decreases ms@.len() - j,
    {
        if ms[j].name == ms[i].name {
            assert(vs[j as int].name == ms@[i as int]@.name);
            return true;
        }
        j = j + 1;
    }
    false
}

/// Builds the plugin part of the command tree from the listed manifests.
pub fn build_tree(ms: &Vec<Manifest>) -> (r: Vec<PluginNode>)
    ensures
        nodes_view(r@) == command_tree(views_of(ms@)),
{
    let ghost vs = views_of(ms@);
    let mut out: Vec<PluginNode> = Vec::new();
    let mut i: usize = 0;
    while i < ms.len()
        invariant
            i <= ms@.len(),
            vs == views_of(ms@),
            nodes_view(out@) == nodes_upto(vs, i as int),
        decreases ms@.len() - i,
    {
        let ghost before = out@;
        let b = is_builtin(&ms[i].name);
        let later = named_later(ms, i);
        assert(vs[i as int] == ms@[i as int]@);
        if !b && !later {
            out.push(plugin_node(&ms[i]));
            assert(nodes_view(out@) =~= nodes_view(before).push(out@.last()@));
        }
        i = i + 1;
    }
    out
}

} // verus!
