//! Finding the Workspace, Players and Lighting service entities, and what
//! scripts see of an instance.
use crate::scene::SceneNode;
use crate::text::str_eq;
use vstd::prelude::*;

verus! {

/// An entity and its name.
pub struct NamedEntity {
    pub entity: u64,
    pub name: String,
}

/// The service entities found so far.
#[derive(Clone, Copy, Debug, PartialEq, Eq, Structural)]
pub struct ServiceEntities {
    pub workspace: Option<u64>,
    pub players: Option<u64>,
    pub lighting: Option<u64>,
}

/// The name of the first entry for entity `e`.
pub open spec fn name_of(named: Seq<NamedEntity>, e: u64) -> Option<Seq<char>>
    decreases named.len(),
{
    if named.len() == 0 {
        None
    } else {
        match name_of(named.drop_last(), e) {
            Some(n) => Some(n),
            None => if named.last().entity == e {
                Some(named.last().name@)
            } else {
                None
            },
        }
    }
}

/// The first entity, in the order of the list, whose name is `name`.
pub open spec fn first_named(named: Seq<NamedEntity>, name: Seq<char>) -> Option<u64>
    decreases named.len(),
{
    if named.len() == 0 {
        None
    } else {
        match first_named(named.drop_last(), name) {
            Some(e) => Some(e),
            None => if named.last().name@ == name && name_of(named.drop_last(), named.last().entity)
                is None {
                Some(named.last().entity)
            } else {
                None
            },
        }
    }
}

/// The cached entity, if it still exists under the service's name.
pub open spec fn still_named(named: Seq<NamedEntity>, cached: Option<u64>, name: Seq<char>) -> Option<
    u64,
> {
    match cached {
        Some(e) => if name_of(named, e) == Some(name) {
            Some(e)
        } else {
            None
        },
        None => None,
    }
}

/// The cached entity if still valid, else the first entity with the name.
pub open spec fn refreshed(named: Seq<NamedEntity>, cached: Option<u64>, name: Seq<char>) -> Option<
    u64,
> {
    match still_named(named, cached, name) {
        Some(e) => Some(e),
        None => first_named(named, name),
    }
}

fn name_of_exec(named: &Vec<NamedEntity>, e: u64) -> (r: Option<usize>)
    ensures
        match name_of(named@, e) {
            Some(n) => r matches Some(i) && i < named.len() && named@[i as int].name@ == n,
            None => r is None,
        },
{
    let mut i: usize = 0;
    while i < named.len()
        invariant
            i <= named.len(),
            name_of(named@.take(i as int), e) is None,
        decreases named.len() - i,
    {
        assert(named@.take(i + 1).drop_last() == named@.take(i as int));
        if named[i].entity == e {
            proof {
                lemma_name_of_prefix(named@, e, i + 1);
            }
            return Some(i);
        }
        i = i + 1;
    }
    assert(named@.take(named.len() as int) == named@);
    None
}

proof fn lemma_name_of_prefix(named: Seq<NamedEntity>, e: u64, n: int)
    requires
        0 <= n <= named.len(),
        name_of(named.take(n), e) is Some,
    ensures
        name_of(named, e) == name_of(named.take(n), e),
    decreases named.len() - n,
{
    if n < named.len() {
        assert(named.take(n + 1).drop_last() == named.take(n));
        lemma_name_of_prefix(named, e, n + 1);
    } else {
        assert(named.take(n) == named);
    }
}

proof fn lemma_first_named_prefix(named: Seq<NamedEntity>, name: Seq<char>, n: int)
    requires
        0 <= n <= named.len(),
        first_named(named.take(n), name) is Some,
    ensures
        first_named(named, name) == first_named(named.take(n), name),
    decreases named.len() - n,
{
    if n < named.len() {
        assert(named.take(n + 1).drop_last() == named.take(n));
        lemma_first_named_prefix(named, name, n + 1);
    } else {
        assert(named.take(n) == named);
    }
}

/// Whether an entry before the `i`-th lists entity `e`.
fn listed_before(named: &Vec<NamedEntity>, e: u64, i: usize) -> (r: bool)
    requires
        i <= named.len(),
    ensures
        r == exists|j: int| 0 <= j < i && #[trigger] named@[j].entity == e,
{
    let mut j: usize = 0;
    while j < i
        invariant
            j <= i <= named.len(),
            forall|m: int| 0 <= m < j ==> #[trigger] named@[m].entity != e,
        decreases i - j,
    {
        if named[j].entity == e {
            return true;
        }
        j = j + 1;
    }
    false
}

/// The first entity named `name`.
fn find_first_named(named: &Vec<NamedEntity>, name: &str) -> (r: Option<u64>)
    ensures
        r == first_named(named@, name@),
{
    let mut i: usize = 0;
    while i < named.len()
        invariant
            i <= named.len(),
            first_named(named@.take(i as int), name@) is None,
        decreases named.len() - i,
    {
        let ghost d = named@.take(i as int);
        assert(named@.take(i + 1).drop_last() == d);
        assert(named@.take(i + 1).last() == named@[i as int]);
        if str_eq(named[i].name.as_str(), name) {
            let e = named[i].entity;
            if !listed_before(named, e, i) {
                proof {
                    lemma_name_of_absent(d, e);
                    lemma_first_named_prefix(named@, name@, i + 1);
                }
                return Some(e);
            } else {
                proof {
                    let j = choose|j: int| 0 <= j < i && #[trigger] named@[j].entity == e;
                    assert(d[j].entity == e);
                    lemma_name_of_listed(d, j);
                }
            }
        }
        i = i + 1;
    }
    assert(named@.take(named.len() as int) == named@);
    None
}

/// Whether `cached` still names an entity called `name`.
fn still_named_exec(named: &Vec<NamedEntity>, cached: Option<u64>, name: &str) -> (r: Option<u64>)
    ensures
        r == still_named(named@, cached, name@),
{
    match cached {
        Some(e) => match name_of_exec(named, e) {
            Some(i) => if str_eq(named[i].name.as_str(), name) {
                Some(e)
            } else {
                None
            },
            None => None,
        },
        None => None,
    }
}

impl ServiceEntities {
    /// Nothing found yet.
    pub fn new() -> (r: Self)
        ensures
            r.workspace is None,
            r.players is None,
            r.lighting is None,
    {
        ServiceEntities { workspace: None, players: None, lighting: None }
    }
}

/// Refreshes the cache against the named entities of the scene: an entry
/// whose entity is gone or renamed is dropped, and each empty entry takes
/// the first entity that carries the service's name.
pub fn cache_service_entities(cache: &mut ServiceEntities, named: &Vec<NamedEntity>)
    ensures
        final(cache).workspace == refreshed(named@, old(cache).workspace, "Workspace"@),
        final(cache).players == refreshed(named@, old(cache).players, "Players"@),
        final(cache).lighting == refreshed(named@, old(cache).lighting, "Lighting"@),
{
    cache.workspace = still_named_exec(named, cache.workspace, "Workspace");
    cache.players = still_named_exec(named, cache.players, "Players");
    cache.lighting = still_named_exec(named, cache.lighting, "Lighting");
    if cache.workspace.is_some() && cache.players.is_some() && cache.lighting.is_some() {
        return;
    }
    if cache.workspace.is_none() {
        cache.workspace = find_first_named(named, "Workspace");
    }
    if cache.players.is_none() {
        cache.players = find_first_named(named, "Players");
    }
    if cache.lighting.is_none() {
        cache.lighting = find_first_named(named, "Lighting");
    }
}

proof fn lemma_first_named_found(named: Seq<NamedEntity>, name: Seq<char>)
    ensures
        (exists|k: int| 0 <= k < named.len() && name_of(named, #[trigger] named[k].entity) == Some(name))
            ==> first_named(named, name) is Some,
        first_named(named, name) matches Some(e) ==> name_of(named, e) == Some(name),
    decreases named.len(),
{
    if named.len() > 0 {
        let d = named.drop_last();
        let last = named.last();
        lemma_first_named_found(d, name);
        if exists|k: int| 0 <= k < named.len() && name_of(named, #[trigger] named[k].entity) == Some(name) {
            let k = choose|k: int| 0 <= k < named.len() && name_of(named, #[trigger] named[k].entity) == Some(name);
            let x = named[k].entity;
            if name_of(d, x) is Some {
                lemma_name_of_some(d, x);
                let j = choose|j: int| 0 <= j < d.len() && #[trigger] d[j].entity == x;
                assert(name_of(d, d[j].entity) == Some(name));
            }
        }
    }
}

/// An entity with a name is listed.
proof fn lemma_name_of_some(named: Seq<NamedEntity>, e: u64)
    ensures
        name_of(named, e) is Some ==> exists|j: int| 0 <= j < named.len() && #[trigger] named[j].entity == e,
    decreases named.len(),
{
    if named.len() > 0 {
        let d = named.drop_last();
        lemma_name_of_some(d, e);
        if name_of(d, e) is Some {
            let j = choose|j: int| 0 <= j < d.len() && #[trigger] d[j].entity == e;
            assert(named[j] == d[j]);
        } else if name_of(named, e) is Some {
            assert(named[named.len() - 1].entity == e);
        }
    }
}

/// A listed entity has a name.
proof fn lemma_name_of_listed(named: Seq<NamedEntity>, k: int)
    requires
        0 <= k < named.len(),
    ensures
        name_of(named, named[k].entity) is Some,
    decreases named.len(),
{
    let d = named.drop_last();
    if k < named.len() - 1 {
        assert(d[k] == named[k]);
        lemma_name_of_listed(d, k);
    }
}

proof fn lemma_name_of_absent(named: Seq<NamedEntity>, e: u64)
    requires
        forall|i: int| 0 <= i < named.len() ==> #[trigger] named[i].entity != e,
    ensures
        name_of(named, e) is None,
    decreases named.len(),
{
    if named.len() > 0 {
        let d = named.drop_last();
        assert forall|i: int| 0 <= i < d.len() implies #[trigger] d[i].entity != e by {
            assert(d[i] == named[i]);
        }
        lemma_name_of_absent(d, e);
        assert(named[named.len() - 1].entity != e);
    }
}

/// What a refreshed cache entry for a service holds: a listed entity whose
/// name is the service's; some entity whenever a listed entity carries that
/// name; and the entity it held before, while that one still carries the
/// name. An entity's name is that of its first entry.
pub proof fn lemma_service_cache_sound(named: Seq<NamedEntity>, cached: Option<u64>, name: Seq<char>)
    ensures
        refreshed(named, cached, name) matches Some(e) ==> name_of(named, e) == Some(name) && exists|k: int|
            0 <= k < named.len() && #[trigger] named[k].entity == e,
        (exists|k: int| 0 <= k < named.len() && name_of(named, #[trigger] named[k].entity) == Some(name))
            ==> refreshed(named, cached, name) is Some,
        (cached matches Some(e) && name_of(named, e) == Some(name)) ==> refreshed(named, cached, name)
            == cached,
{
    lemma_first_named_found(named, name);
    if let Some(e) = refreshed(named, cached, name) {
        lemma_name_of_some(named, e);
    }
}

/// The service names that scripts can look up.
pub open spec fn is_service_name(name: Seq<char>) -> bool {
    name == "Workspace"@ || name == "Players"@ || name == "Lighting"@
}

/// The cache entry for a service name.
pub open spec fn cached_for(cache: ServiceEntities, name: Seq<char>) -> Option<u64> {
    if name == "Workspace"@ {
        cache.workspace
    } else if name == "Players"@ {
        cache.players
    } else if name == "Lighting"@ {
        cache.lighting
    } else {
        None
    }
}

/// The entity of a service: the cached one if it still carries the
/// service's name, else the first entity with that name. Names other than
/// the three services find nothing.
pub fn find_service_entity(cache: Option<ServiceEntities>, service_name: &str, named: &Vec<
    NamedEntity,
>) -> (r: Option<u64>)
    ensures
        r == match cache {
            Some(c) => match still_named(named@, cached_for(c, service_name@), service_name@) {
                Some(e) => Some(e),
                None => if is_service_name(service_name@) {
                    first_named(named@, service_name@)
                } else {
                    None
                },
            },
            None => if is_service_name(service_name@) {
                first_named(named@, service_name@)
            } else {
                None
            },
        },
{
    let is_workspace = str_eq(service_name, "Workspace");
    let is_players = str_eq(service_name, "Players");
    let is_lighting = str_eq(service_name, "Lighting");
    if let Some(c) = cache {
        let cached = if is_workspace {
            c.workspace
        } else if is_players {
            c.players
        } else if is_lighting {
            c.lighting
        } else {
            None
        };
        if let Some(e) = still_named_exec(named, cached, service_name) {
            return Some(e);
        }
    }
    if is_workspace || is_players || is_lighting {
        find_first_named(named, service_name)
    } else {
        None
    }
}

/// The class of an instance as scripts see it.
#[derive(Clone, Copy, Debug, PartialEq, Eq, Structural)]
pub enum InstanceClass {
    Workspace,
    Players,
    Lighting,
    Player,
    Part,
    Script,
    LocalScript,
    ModuleScript,
    Folder,
}

/// What an entity is made of, as far as its class goes.
#[derive(Clone, Copy, Debug, PartialEq, Eq, Structural)]
pub struct InstanceKinds {
    pub is_players_service: bool,
    pub is_lighting_service: bool,
    pub is_player: bool,
    pub is_brick: bool,
    pub is_server_script: bool,
    pub is_local_script: bool,
    pub is_module_script: bool,
}

/// The class of an instance: by name for the workspace, then by the first
/// component that applies, in the order of `InstanceKinds`; else a folder.
pub fn class_of(name: &str, kinds: InstanceKinds) -> (r: InstanceClass)
    ensures
        r == if name@ == "Workspace"@ {
            InstanceClass::Workspace
        } else if kinds.is_players_service {
            InstanceClass::Players
        } else if kinds.is_lighting_service {
            InstanceClass::Lighting
        } else if kinds.is_player {
            InstanceClass::Player
        } else if kinds.is_brick {
            InstanceClass::Part
        } else if kinds.is_server_script {
            InstanceClass::Script
        } else if kinds.is_local_script {
            InstanceClass::LocalScript
        } else if kinds.is_module_script {
            InstanceClass::ModuleScript
        } else {
            InstanceClass::Folder
        },
{
    if str_eq(name, "Workspace") {
        InstanceClass::Workspace
    } else if kinds.is_players_service {
        InstanceClass::Players
    } else if kinds.is_lighting_service {
        InstanceClass::Lighting
    } else if kinds.is_player {
        InstanceClass::Player
    } else if kinds.is_brick {
        InstanceClass::Part
    } else if kinds.is_server_script {
        InstanceClass::Script
    } else if kinds.is_local_script {
        InstanceClass::LocalScript
    } else if kinds.is_module_script {
        InstanceClass::ModuleScript
    } else {
        InstanceClass::Folder
    }
}

impl InstanceClass {
    /// The class name scripts read.
    pub fn class_name(&self) -> (r: &'static str)
        ensures
            *self == InstanceClass::Workspace ==> r@ == "Workspace"@,
            *self == InstanceClass::Players ==> r@ == "Players"@,
            *self == InstanceClass::Lighting ==> r@ == "Lighting"@,
            *self == InstanceClass::Player ==> r@ == "Player"@,
            *self == InstanceClass::Part ==> r@ == "Part"@,
            *self == InstanceClass::Script ==> r@ == "Script"@,
            *self == InstanceClass::LocalScript ==> r@ == "LocalScript"@,
            *self == InstanceClass::ModuleScript ==> r@ == "ModuleScript"@,
            *self == InstanceClass::Folder ==> r@ == "Folder"@,
    {
        match self {
            InstanceClass::Workspace => "Workspace",
            InstanceClass::Players => "Players",
            InstanceClass::Lighting => "Lighting",
            InstanceClass::Player => "Player",
            InstanceClass::Part => "Part",
            InstanceClass::Script => "Script",
            InstanceClass::LocalScript => "LocalScript",
            InstanceClass::ModuleScript => "ModuleScript",
            InstanceClass::Folder => "Folder",
        }
    }
}

/// The parentless bricks and scripts among `nodes`, other than `this`, in order.
pub open spec fn loose_items(nodes: Seq<SceneNode>, this: u64) -> Seq<u64>
    decreases nodes.len(),
{
    if nodes.len() == 0 {
        Seq::empty()
    } else {
        let n = nodes.last();
        if n.parent is None && n.entity != this && (n.is_brick || n.is_script) {
            loose_items(nodes.drop_last(), this).push(n.entity)
        } else {
            loose_items(nodes.drop_last(), this)
        }
    }
}

/// The children a script sees for an instance: its own children, and for
/// the workspace also every parentless brick and script of the scene.
pub fn instance_children(this: u64, is_workspace: bool, own_children: &Vec<u64>, nodes: &Vec<
    SceneNode,
>) -> (r: Vec<u64>)
    ensures
        r@ == if is_workspace {
            own_children@ + loose_items(nodes@, this)
        } else {
            own_children@
        },
{
    let mut out: Vec<u64> = Vec::new();
    let mut i: usize = 0;
    while i < own_children.len()
        invariant
            i <= own_children.len(),
            out@ == own_children@.take(i as int),
        decreases own_children.len() - i,
    {
        out.push(own_children[i]);
        i = i + 1;
    }
    assert(own_children@.take(own_children.len() as int) == own_children@);
    if !is_workspace {
        return out;
    }
    let mut k: usize = 0;
    while k < nodes.len()
        invariant
            k <= nodes.len(),
            out@ == own_children@ + loose_items(nodes@.take(k as int), this),
        decreases nodes.len() - k,
    {
        assert(nodes@.take(k + 1).drop_last() == nodes@.take(k as int));
        let n = &nodes[k];
        if n.parent.is_none() && n.entity != this && (n.is_brick || n.is_script) {
            out.push(n.entity);
        }
        k = k + 1;
    }
    assert(nodes@.take(nodes.len() as int) == nodes@);
    out
}

/// `FindFirstChild`: the first of `children` whose name is `name`.
pub fn find_first_child(children: &Vec<u64>, name: &str, named: &Vec<NamedEntity>) -> (r: Option<
    u64,
>)
    ensures
        match r {
            Some(c) => exists|i: int|
                0 <= i < children@.len() && children@[i] == c && name_of(named@, c) == Some(name@)
                    && forall|j: int|
                    0 <= j < i ==> name_of(named@, #[trigger] children@[j]) != Some(name@),
            None => forall|j: int|
                0 <= j < children@.len() ==> name_of(named@, #[trigger] children@[j]) != Some(
                    name@,
                ),
        },
{
    let mut i: usize = 0;
    while i < children.len()
        invariant
            i <= children.len(),
            forall|j: int| 0 <= j < i ==> name_of(named@, #[trigger] children@[j]) != Some(name@),
        decreases children.len() - i,
    {
        let c = children[i];
        if let Some(k) = name_of_exec(named, c) {
            if str_eq(named[k].name.as_str(), name) {
                return Some(c);
            }
        }
        i = i + 1;
    }
    None
}

/// Why a script's use of an instance fails.
#[derive(Clone, Copy, Debug, PartialEq, Eq, Structural)]
pub enum InstanceError {
    /// A property was read or written on a despawned entity.
    Destroyed,
    /// `Clone` was called on a despawned entity.
    CloneOfDestroyed,
}

impl InstanceError {
    /// The error text scripts see.
    pub fn message(&self) -> (r: &'static str)
        ensures
            *self == InstanceError::Destroyed ==> r@ == "Instance has been destroyed"@,
            *self == InstanceError::CloneOfDestroyed ==> r@ == "Instance to clone has been destroyed"@,
    {
        match self {
            InstanceError::Destroyed => "Instance has been destroyed",
            InstanceError::CloneOfDestroyed => "Instance to clone has been destroyed",
        }
    }
}

/// A property access on an instance goes ahead only while its entity exists.
pub fn check_instance_access(entity_exists: bool) -> (r: Result<(), InstanceError>)
    ensures
        entity_exists <==> r is Ok,
        !entity_exists ==> r == Err::<(), InstanceError>(InstanceError::Destroyed),
{
    if entity_exists {
        Ok(())
    } else {
        Err(InstanceError::Destroyed)
    }
}

/// The name `FindFirstChild` looks for, from the call's arguments (`None`
/// for one that is not a string): called as a function with one argument it
/// is that argument; called as a method (the instance first) it is the
/// second; otherwise, or when that argument is no string, the empty name.
pub open spec fn searched_name(args: Seq<Option<String>>) -> Seq<char> {
    if args.len() == 1 {
        match args[0] {
            Some(s) => s@,
            None => Seq::empty(),
        }
    } else if args.len() >= 2 {
        match args[1] {
            Some(s) => s@,
            None => Seq::empty(),
        }
    } else {
        Seq::empty()
    }
}

/// The name `FindFirstChild` looks for (see `searched_name`).
pub fn find_first_child_argument(args: &Vec<Option<String>>) -> (r: String)
    ensures
        r@ == searched_name(args@),
{
    if args.len() == 1 {
        match &args[0] {
            Some(s) => s.clone(),
            None => String::new(),
        }
    } else if args.len() >= 2 {
        match &args[1] {
            Some(s) => s.clone(),
            None => String::new(),
        }
    } else {
        String::new()
    }
}


/// Node `n` is one the workspace shows as a child of its own: a brick or a
/// script with no parent, other than the workspace itself.
pub open spec fn loose_under_workspace(n: SceneNode, this: u64) -> bool {
    n.parent is None && n.entity != this && (n.is_brick || n.is_script)
}

/// Beyond its own children, the workspace `this` lists exactly the
/// parentless bricks and scripts of the scene other than itself, each in
/// the order of the scene's nodes.
pub proof fn lemma_workspace_lists_loose_items(nodes: Seq<SceneNode>, this: u64)
    ensures
        forall|x: u64| #[trigger] loose_items(nodes, this).contains(x) <==> exists|i: int|
            0 <= i < nodes.len() && nodes[i].entity == x && #[trigger] loose_under_workspace(nodes[i], this),
        loose_items(nodes, this).len() <= nodes.len(),
    decreases nodes.len(),
{
    if nodes.len() > 0 {
        let d = nodes.drop_last();
        let n = nodes.last();
        lemma_workspace_lists_loose_items(d, this);
        assert forall|x: u64| #[trigger] loose_items(nodes, this).contains(x) <==> exists|i: int|
            0 <= i < nodes.len() && nodes[i].entity == x && #[trigger] loose_under_workspace(nodes[i], this) by {
            let l = loose_items(d, this);
            if loose_items(nodes, this).contains(x) {
                if loose_under_workspace(n, this) && x == n.entity {
                    assert(nodes[nodes.len() - 1] == n);
                } else {
                    if loose_under_workspace(n, this) {
                        let j = choose|j: int| 0 <= j < l.push(n.entity).len() && l.push(n.entity)[j] == x;
                        assert(l[j] == x);
                    }
                    assert(l.contains(x));
                    let i = choose|i: int| 0 <= i < d.len() && d[i].entity == x && #[trigger] loose_under_workspace(d[i], this);
                    assert(nodes[i] == d[i]);
                }
            }
            if exists|i: int| 0 <= i < nodes.len() && nodes[i].entity == x && #[trigger] loose_under_workspace(nodes[i], this) {
                let i = choose|i: int| 0 <= i < nodes.len() && nodes[i].entity == x && #[trigger] loose_under_workspace(nodes[i], this);
                if i < nodes.len() - 1 {
                    assert(d[i] == nodes[i]);
                    assert(l.contains(x));
                    if loose_under_workspace(n, this) {
                        let j = choose|j: int| 0 <= j < l.len() && l[j] == x;
                        assert(l.push(n.entity)[j] == x);
                    }
                } else {
                    assert(l.push(n.entity)[l.len() as int] == x);
                }
            }
        }
    }
}


/// An entity's name is the one on its first entry in the list: `name_of`
/// gives `Some(n)` exactly when some entry `i` lists the entity with name
/// `n` and no earlier entry lists it, and `None` when no entry does.
pub proof fn lemma_name_of_is_first_entry(named: Seq<NamedEntity>, e: u64)
    ensures
        name_of(named, e) is None <==> forall|j: int| 0 <= j < named.len() ==> #[trigger] named[j].entity != e,
        name_of(named, e) matches Some(n) ==> exists|i: int|
            0 <= i < named.len() && #[trigger] named[i].entity == e && named[i].name@ == n && forall|j: int|
                0 <= j < i ==> #[trigger] named[j].entity != e,
    decreases named.len(),
{
    if named.len() > 0 {
        let d = named.drop_last();
        lemma_name_of_is_first_entry(d, e);
        if name_of(d, e) is None {
            assert forall|j: int| 0 <= j < d.len() implies #[trigger] named[j].entity != e by {
                assert(d[j] == named[j]);
            }
            if named.last().entity == e {
                assert(named[named.len() - 1].entity == e);
            }
        } else {
            let n = name_of(d, e).unwrap();
            let i = choose|i: int|
                0 <= i < d.len() && #[trigger] d[i].entity == e && d[i].name@ == n && forall|j: int|
                    0 <= j < i ==> #[trigger] d[j].entity != e;
            assert(named[i] == d[i]);
            assert forall|j: int| 0 <= j < i implies #[trigger] named[j].entity != e by {
                assert(d[j] == named[j]);
            }
        }
    }
}

} // verus!
