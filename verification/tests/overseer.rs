use black_box::Action;
use black_box::Factory;
use black_box::factory_set::plan;
use black_box::FactoryHolder;
use black_box::FactorySet;
use black_box::Step;
use black_box::Handle;
use black_box::InsertResource;
use black_box::resource::PoolView;
use black_box::Overseer;
use black_box::RemoveResource;
use black_box::Resource;
use black_box::ResourcePool;
use black_box::UpdateOrInsertResource;
use black_box::UpdateResource;
use std::any::TypeId;
use std::sync::Arc;
use std::sync::Mutex;

#[derive(Debug, Clone, PartialEq)]
struct A(u32);

#[derive(Debug, Clone, PartialEq)]
struct B(u32);

#[derive(Debug, Clone, PartialEq)]
struct Config(u32);

/// What the factories and handles of a test write down, in order.
type Log = Arc<Mutex<Vec<String>>>;

fn log() -> Log {
    Arc::new(Mutex::new(Vec::new()))
}

fn write(log: &Log, line: String) {
    log.lock().unwrap().push(line);
}

fn read(log: &Log) -> Vec<String> {
    std::mem::take(&mut *log.lock().unwrap())
}

fn name_of(id: &TypeId) -> &'static str {
    if *id == TypeId::of::<A>() {
        "A"
    } else if *id == TypeId::of::<B>() {
        "B"
    } else if *id == TypeId::of::<Config>() {
        "Config"
    } else {
        "?"
    }
}

/// A handle that writes down its shutdown.
#[derive(Debug)]
struct Child {
    factory: &'static str,
    number: u32,
    log: Log,
}

impl Handle for Child {
    fn shutdown(&mut self, _pool: &ResourcePool) {
        write(&self.log, format!("{}: shutdown {}", self.factory, self.number));
    }
}

/// A factory that writes down every callback, builds when the pool holds
/// what it needs, and answers as it is told to.
struct Recorder {
    name: &'static str,
    needs: Vec<TypeId>,
    built: u32,
    on_build: Action,
    on_insert: Action,
    on_update: Action,
    on_remove: Action,
    log: Log,
}

impl Recorder {
    fn new(name: &'static str, needs: Vec<TypeId>, log: &Log) -> Self {
        Recorder {
            name,
            needs,
            built: 0,
            on_build: Action::Noop,
            on_insert: Action::Noop,
            on_update: Action::Noop,
            on_remove: Action::Noop,
            log: log.clone(),
        }
    }
}

impl Factory for Recorder {
    type Handle = Child;

    fn would_build(&self, _pool: PoolView) -> Option<Child> {
        unreachable!("contracts only")
    }

    fn build(&mut self, pool: &ResourcePool) -> Option<Child> {
        if self.needs.iter().all(|id| pool.contains_id(*id)) {
            let number = self.built;
            self.built += 1;
            write(&self.log, format!("{}: build {}", self.name, number));
            Some(Child { factory: self.name, number, log: self.log.clone() })
        } else {
            write(&self.log, format!("{}: build nothing", self.name));
            None
        }
    }

    fn on_build(&mut self, _pool: &ResourcePool, handle: &Child) -> Action {
        write(&self.log, format!("{}: on_build {}", self.name, handle.number));
        self.on_build
    }

    fn on_insert(&mut self, pool: &ResourcePool, type_id: &TypeId) -> Action {
        let seen = pool.contains_id(*type_id);
        write(&self.log, format!("{}: on_insert {} {}", self.name, name_of(type_id), seen));
        self.on_insert
    }

    fn on_update(&mut self, pool: &ResourcePool, type_id: &TypeId) -> Action {
        let seen = pool.contains_id(*type_id);
        write(&self.log, format!("{}: on_update {} {}", self.name, name_of(type_id), seen));
        self.on_update
    }

    fn on_remove(&mut self, pool: &ResourcePool, type_id: &TypeId) -> Action {
        let seen = pool.contains_id(*type_id);
        write(&self.log, format!("{}: on_remove {} {}", self.name, name_of(type_id), seen));
        self.on_remove
    }
}

/// A factory that overrides nothing but `build`.
struct Plain;

struct Nothing;

impl Handle for Nothing {
    fn shutdown(&mut self, _pool: &ResourcePool) {}
}

impl Factory for Plain {
    type Handle = Nothing;

    fn would_build(&self, _pool: PoolView) -> Option<Nothing> {
        unreachable!("contracts only")
    }

    fn build(&mut self, _pool: &ResourcePool) -> Option<Nothing> {
        Some(Nothing)
    }
}

fn numbers(overseer: &Overseer<Child>) -> Vec<(&'static str, u32)> {
    overseer.handles().iter().map(|child| (child.factory, child.number)).collect()
}

#[test]
fn autobuild_factories_build_when_their_resources_are_there() {
    let log = log();
    let mut overseer: Overseer<Child> = Overseer::new();
    overseer.insert_factory_autobuild(Recorder::new("F1", vec![TypeId::of::<A>()], &log));
    overseer.insert_factory_autobuild(Recorder::new(
        "F2",
        vec![TypeId::of::<A>(), TypeId::of::<B>()],
        &log,
    ));
    assert!(overseer.handles().is_empty());

    overseer.handle_insert(InsertResource::new(A(1)));
    assert_eq!(numbers(&overseer), vec![("F1", 0)]);
    assert_eq!(
        read(&log),
        vec![
            "F1: on_insert A true",
            "F1: build 0",
            "F1: on_build 0",
            "F2: on_insert A true",
            "F2: build nothing",
        ]
    );

    overseer.handle_insert(InsertResource::new(B(2)));
    assert_eq!(numbers(&overseer), vec![("F1", 0), ("F2", 0)]);
    assert_eq!(
        read(&log),
        vec!["F1: on_insert B true", "F2: on_insert B true", "F2: build 0", "F2: on_build 0"]
    );
}

#[test]
fn restart_on_update_shuts_down_before_it_builds() {
    let log = log();
    let mut overseer: Overseer<Child> = Overseer::new();
    let mut factory = Recorder::new("F", vec![TypeId::of::<Config>()], &log);
    factory.on_update = Action::Restart;
    overseer.insert_factory_autobuild(factory);

    assert_eq!(overseer.insert_resource(Config(0)), None);
    assert_eq!(numbers(&overseer), vec![("F", 0)]);
    read(&log);

    assert_eq!(overseer.update_resource(Config(1)), Some(Config(0)));
    assert_eq!(read(&log), vec!["F: on_update Config true", "F: shutdown 0", "F: build 1"]);
    assert_eq!(numbers(&overseer), vec![("F", 1)]);
}

#[test]
fn update_without_insert_does_nothing() {
    let log = log();
    let mut overseer: Overseer<Child> = Overseer::new();
    overseer.insert_factory_autobuild(Recorder::new("F", vec![], &log));
    overseer.handle_update(UpdateResource::new(A(1)));
    assert!(read(&log).is_empty());
    assert!(!overseer.contains_resource::<A>());
    assert_eq!(overseer.update_resource(A(2)), None);
    assert!(read(&log).is_empty());
    assert!(!overseer.contains_resource::<A>());
    assert!(overseer.handles().is_empty());
}

#[test]
fn remove_is_told_while_the_resource_is_still_there() {
    let log = log();
    let mut overseer: Overseer<Child> = Overseer::new();
    overseer.insert_factory_manual(Recorder::new("F", vec![], &log));
    overseer.insert_resource(A(1));
    read(&log);
    assert_eq!(overseer.remove_resource::<A>(), Some(A(1)));
    assert_eq!(read(&log), vec!["F: on_remove A true"]);
    assert!(!overseer.contains_resource::<A>());
    assert_eq!(overseer.remove_resource::<A>(), None);
    overseer.handle_remove(RemoveResource::<A>::new());
    overseer.handle_remove(RemoveResource::<B>::default());
    assert!(read(&log).is_empty());
}

#[test]
fn messages_keep_the_life_of_a_type_in_turn() {
    let log = log();
    let mut overseer: Overseer<Child> = Overseer::new();
    overseer.insert_factory_manual(Recorder::new("F", vec![], &log));
    overseer.handle_update(UpdateResource::new(A(0)));
    overseer.handle_remove(RemoveResource::<A>::new());
    overseer.handle_insert(InsertResource::new(A(1)));
    overseer.handle_insert(InsertResource::new(A(2)));
    overseer.handle_update(UpdateResource::new(A(3)));
    overseer.handle_update_or_insert(UpdateOrInsertResource::new(A(4)));
    overseer.handle_insert(InsertResource::new(B(1)));
    overseer.handle_remove(RemoveResource::<A>::new());
    overseer.handle_remove(RemoveResource::<A>::new());
    overseer.handle_update_or_insert(UpdateOrInsertResource::new(A(5)));
    assert_eq!(
        read(&log),
        vec![
            "F: on_insert A true",
            "F: on_update A true",
            "F: on_update A true",
            "F: on_insert B true",
            "F: on_remove A true",
            "F: on_insert A true",
        ]
    );
    assert!(overseer.contains_resource::<A>());
    assert!(overseer.contains_resource::<B>());
    assert!(overseer.handles().is_empty());
}

#[test]
fn duplicate_insert_message_keeps_the_first_value() {
    let mut overseer: Overseer<Nothing> = Overseer::default();
    overseer.handle_insert(InsertResource::new(A(1)));
    overseer.handle_insert(InsertResource::new(A(2)));
    assert_eq!(overseer.update_resource(A(3)), Some(A(1)));
}

#[test]
fn direct_insert_overwrites_and_tells_of_an_insertion_again() {
    let log = log();
    let mut overseer: Overseer<Child> = Overseer::new();
    overseer.insert_factory_manual(Recorder::new("F", vec![], &log));
    assert_eq!(overseer.insert_resource(A(1)), None);
    assert_eq!(overseer.insert_resource(A(2)), Some(A(1)));
    assert_eq!(read(&log), vec!["F: on_insert A true", "F: on_insert A true"]);
    assert_eq!(overseer.remove_resource::<A>(), Some(A(2)));
}

#[test]
fn manual_factory_builds_only_on_restart() {
    let log = log();
    let mut overseer: Overseer<Child> = Overseer::new();
    let mut factory = Recorder::new("M", vec![], &log);
    factory.on_insert = Action::Restart;
    factory.on_update = Action::Restart;
    overseer.insert_factory_manual(factory);
    overseer.insert_resource(A(1));
    // the answer to on_insert is not acted upon
    assert_eq!(read(&log), vec!["M: on_insert A true"]);
    assert!(overseer.handles().is_empty());
    overseer.update_resource(A(2));
    assert_eq!(read(&log), vec!["M: on_update A true", "M: build 0"]);
    assert_eq!(numbers(&overseer), vec![("M", 0)]);
}

#[test]
fn shutdown_answer_empties_the_slot_and_autobuild_fills_it_again() {
    let log = log();
    let mut overseer: Overseer<Child> = Overseer::new();
    let mut factory = Recorder::new("F", vec![], &log);
    factory.on_remove = Action::Shutdown;
    overseer.insert_factory_autobuild(factory);
    overseer.insert_resource(A(1));
    assert_eq!(numbers(&overseer), vec![("F", 0)]);
    overseer.insert_resource(B(1));
    // the slot is taken: no second handle
    assert_eq!(numbers(&overseer), vec![("F", 0)]);
    read(&log);
    overseer.remove_resource::<A>();
    assert_eq!(read(&log), vec!["F: on_remove A true", "F: shutdown 0"]);
    assert!(overseer.handles().is_empty());
    overseer.remove_resource::<B>();
    assert_eq!(read(&log), vec!["F: on_remove B true"]);
    overseer.insert_resource(A(2));
    assert_eq!(read(&log), vec!["F: on_insert A true", "F: build 1", "F: on_build 1"]);
    assert_eq!(numbers(&overseer), vec![("F", 1)]);
}

#[test]
fn answer_of_on_build_is_carried_out() {
    let log = log();
    let mut overseer: Overseer<Child> = Overseer::new();
    let mut stops = Recorder::new("S", vec![], &log);
    stops.on_build = Action::Shutdown;
    let mut restarts = Recorder::new("R", vec![], &log);
    restarts.on_build = Action::Restart;
    overseer.insert_factory_autobuild(stops);
    overseer.insert_factory_autobuild(restarts);
    overseer.insert_resource(A(1));
    assert_eq!(
        read(&log),
        vec![
            "S: on_insert A true",
            "S: build 0",
            "S: on_build 0",
            "S: shutdown 0",
            "R: on_insert A true",
            "R: build 0",
            "R: on_build 0",
            "R: shutdown 0",
            "R: build 1",
        ]
    );
    assert_eq!(numbers(&overseer), vec![("R", 1)]);
}

#[test]
fn callbacks_answer_noop_unless_overridden() {
    let mut overseer: Overseer<Nothing> = Overseer::new();
    overseer.insert_factory_autobuild(Plain);
    overseer.insert_factory_manual(Plain);
    overseer.insert_resource(A(1));
    assert_eq!(overseer.handles().len(), 1);
    overseer.update_resource(A(2));
    overseer.remove_resource::<A>();
    assert_eq!(overseer.handles().len(), 1);
    let pool = ResourcePool::new();
    let mut plain = Plain;
    assert_eq!(plain.on_build(&pool, &Nothing), Action::Noop);
    assert_eq!(plain.on_insert(&pool, &TypeId::of::<A>()), Action::Noop);
    assert_eq!(plain.on_update(&pool, &TypeId::of::<A>()), Action::Noop);
    assert_eq!(plain.on_remove(&pool, &TypeId::of::<A>()), Action::Noop);
}

#[test]
fn erased_functions_of_the_overseer() {
    let log = log();
    let mut overseer: Overseer<Child> = Overseer::new();
    overseer.insert_factory_manual(Recorder::new("F", vec![], &log));
    let id = TypeId::of::<A>();
    assert!(!overseer.contains_id(id));
    assert!(overseer.update_erased(Resource::new(A(0))).is_none());
    assert!(overseer.remove_id(id).is_none());
    assert!(overseer.insert_erased(Resource::new(A(1))).is_none());
    assert!(overseer.contains_id(id));
    overseer.insert_if_absent_erased(Resource::new(A(2)));
    let was = overseer.update_erased(Resource::new(A(3)));
    assert_eq!(was.and_then(|r| r.into_inner::<A>()), Some(A(1)));
    overseer.update_or_insert_erased(Resource::new(A(4)));
    overseer.update_or_insert_erased(Resource::new(B(1)));
    let was = overseer.remove_id(id);
    assert_eq!(was.and_then(|r| r.into_inner::<A>()), Some(A(4)));
    assert_eq!(
        read(&log),
        vec![
            "F: on_insert A true",
            "F: on_update A true",
            "F: on_update A true",
            "F: on_insert B true",
            "F: on_remove A true",
        ]
    );
}

#[test]
fn factory_set_tells_in_the_order_of_joining() {
    let log = log();
    let pool = ResourcePool::new();
    let mut set: FactorySet<Child> = FactorySet::new();
    let mut first = Recorder::new("1", vec![], &log);
    first.on_update = Action::Restart;
    set.insert(first, false);
    set.insert(Recorder::new("2", vec![], &log), true);
    set.insert(Recorder::new("3", vec![TypeId::of::<A>()], &log), true);
    let id = TypeId::of::<B>();
    set.on_add(&pool, &id);
    assert_eq!(
        read(&log),
        vec![
            "1: on_insert B false",
            "2: on_insert B false",
            "2: build 0",
            "2: on_build 0",
            "3: on_insert B false",
            "3: build nothing",
        ]
    );
    set.on_update(&pool, &id);
    assert_eq!(
        read(&log),
        vec!["1: on_update B false", "1: build 0", "2: on_update B false", "3: on_update B false"]
    );
    set.on_remove(&pool, &id);
    assert_eq!(
        read(&log),
        vec!["1: on_remove B false", "2: on_remove B false", "3: on_remove B false"]
    );
    let held: Vec<&'static str> = set.handles().iter().map(|child| child.factory).collect();
    assert_eq!(held, vec!["1", "2"]);
}

#[test]
fn plan_gives_the_steps_of_each_action() {
    assert_eq!(plan(false, Action::Noop), vec![]);
    assert_eq!(plan(true, Action::Noop), vec![]);
    assert_eq!(plan(false, Action::Shutdown), vec![]);
    assert_eq!(plan(true, Action::Shutdown), vec![Step::Shutdown]);
    assert_eq!(plan(false, Action::Restart), vec![Step::Build]);
    assert_eq!(plan(true, Action::Restart), vec![Step::Shutdown, Step::Build]);
}

#[test]
fn restart_builds_on_an_empty_manual_slot() {
    let log = log();
    let pool = ResourcePool::new();
    let mut holder = FactoryHolder::new(Recorder::new("F", vec![], &log), false);
    assert!(holder.handle().is_none());
    holder.handle_action(Action::Restart, &pool);
    assert_eq!(read(&log), vec!["F: build 0"]);
    assert_eq!(holder.handle().map(|child| child.number), Some(0));
}

#[test]
fn restart_shuts_the_old_handle_down_and_then_builds() {
    let log = log();
    let pool = ResourcePool::new();
    let mut holder = FactoryHolder::new(Recorder::new("F", vec![], &log), true);
    holder.handle_action(Action::Restart, &pool);
    read(&log);
    holder.handle_action(Action::Restart, &pool);
    assert_eq!(read(&log), vec!["F: shutdown 0", "F: build 1"]);
    assert_eq!(holder.handle().map(|child| child.number), Some(1));
}

#[test]
fn restart_leaves_the_slot_empty_when_build_hands_out_nothing() {
    let log = log();
    let pool = ResourcePool::new();
    let mut holder = FactoryHolder::new(Recorder::new("F", vec![TypeId::of::<A>()], &log), false);
    holder.handle_action(Action::Restart, &pool);
    assert_eq!(read(&log), vec!["F: build nothing"]);
    assert!(holder.handle().is_none());
}

#[test]
fn noop_and_shutdown_never_build() {
    let log = log();
    let pool = ResourcePool::new();
    let mut holder = FactoryHolder::new(Recorder::new("F", vec![], &log), false);
    holder.handle_action(Action::Noop, &pool);
    holder.handle_action(Action::Shutdown, &pool);
    assert!(read(&log).is_empty());
    holder.handle_action(Action::Restart, &pool);
    read(&log);
    holder.handle_action(Action::Noop, &pool);
    assert!(read(&log).is_empty());
    assert_eq!(holder.handle().map(|child| child.number), Some(0));
    holder.handle_action(Action::Shutdown, &pool);
    assert_eq!(read(&log), vec!["F: shutdown 0"]);
    assert!(holder.handle().is_none());
    holder.handle_action(Action::Shutdown, &pool);
    assert!(read(&log).is_empty());
}

#[test]
fn direct_insert_tells_the_factories_of_the_new_value() {
    struct Seen(Log);
    impl Factory for Seen {
        type Handle = Nothing;

        fn would_build(&self, _pool: PoolView) -> Option<Nothing> {
            unreachable!("contracts only")
        }

        fn build(&mut self, _pool: &ResourcePool) -> Option<Nothing> {
            None
        }

        fn on_insert(&mut self, pool: &ResourcePool, _type_id: &TypeId) -> Action {
            write(&self.0, format!("{:?}", pool.get_clone::<u32>()));
            Action::Noop
        }

        fn on_update(&mut self, pool: &ResourcePool, _type_id: &TypeId) -> Action {
            write(&self.0, format!("{:?}", pool.get_clone::<u32>()));
            Action::Noop
        }
    }
    let log = log();
    let mut overseer: Overseer<Nothing> = Overseer::new();
    overseer.insert_factory_manual(Seen(log.clone()));
    assert_eq!(overseer.insert_resource(1u32), None);
    assert_eq!(overseer.insert_resource(2u32), Some(1));
    assert_eq!(overseer.update_resource(3u32), Some(2));
    assert_eq!(read(&log), vec!["Some(1)", "Some(2)", "Some(3)"]);
}
