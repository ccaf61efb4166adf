use std::any::Any;

use cocos_engine::component_registry::ComponentRegistry;

trait Component: Any {
    fn as_any(&self) -> &dyn Any;
}

#[derive(Default)]
struct TestComponentA {
    #[allow(dead_code)]
    pub value: i32,
}

impl Component for TestComponentA {
    fn as_any(&self) -> &dyn Any {
        self
    }
}

#[derive(Default)]
struct TestComponentB {
    #[allow(dead_code)]
    pub label: String,
}

impl Component for TestComponentB {
    fn as_any(&self) -> &dyn Any {
        self
    }
}

type Boxed = Box<dyn Component>;

fn make<C: Component + Default>() -> Boxed {
    Box::new(C::default())
}

#[test]
fn test_registry_new() {
    let reg: ComponentRegistry<Boxed> = ComponentRegistry::new();
    assert_eq!(reg.registered_count(), 0);
}

#[test]
fn test_register_and_is_registered() {
    let mut reg: ComponentRegistry<Boxed> = ComponentRegistry::new();
    reg.register::<TestComponentA, _>("TestA", make::<TestComponentA>);
    assert!(reg.is_registered("TestA"));
    assert!(!reg.is_registered("TestB"));
}

#[test]
fn test_is_type_registered() {
    let mut reg: ComponentRegistry<Boxed> = ComponentRegistry::new();
    reg.register::<TestComponentA, _>("TestA", make::<TestComponentA>);
    assert!(reg.is_type_registered::<TestComponentA>());
    assert!(!reg.is_type_registered::<TestComponentB>());
}

#[test]
fn test_create_component() {
    let mut reg: ComponentRegistry<Boxed> = ComponentRegistry::new();
    reg.register::<TestComponentA, _>("TestA", make::<TestComponentA>);
    let comp = reg.create("TestA");
    assert!(comp.is_some());
    assert!(comp.unwrap().as_any().downcast_ref::<TestComponentA>().is_some());
}

#[test]
fn test_create_unknown_returns_none() {
    let reg: ComponentRegistry<Boxed> = ComponentRegistry::new();
    assert!(reg.create("Unknown").is_none());
}

#[test]
fn test_get_name_by_type() {
    let mut reg: ComponentRegistry<Boxed> = ComponentRegistry::new();
    reg.register::<TestComponentA, _>("TestA", make::<TestComponentA>);
    assert_eq!(reg.get_name_by_type::<TestComponentA>(), Some("TestA"));
    assert_eq!(reg.get_name_by_type::<TestComponentB>(), None);
}

#[test]
fn test_execution_order() {
    let mut reg: ComponentRegistry<Boxed> = ComponentRegistry::new();
    reg.register_with_order::<TestComponentA, _>("TestA", make::<TestComponentA>, 100);
    reg.register_with_order::<TestComponentB, _>("TestB", make::<TestComponentB>, -10);
    assert_eq!(reg.get_execution_order("TestA"), Some(100));
    assert_eq!(reg.get_execution_order("TestB"), Some(-10));
}

#[test]
fn test_registered_names_sorted() {
    let mut reg: ComponentRegistry<Boxed> = ComponentRegistry::new();
    reg.register::<TestComponentB, _>("Zebra", make::<TestComponentB>);
    reg.register::<TestComponentA, _>("Apple", make::<TestComponentA>);
    let names = reg.get_registered_names();
    assert_eq!(names, vec!["Apple", "Zebra"]);
}

#[test]
fn test_registered_count() {
    let mut reg: ComponentRegistry<Boxed> = ComponentRegistry::new();
    reg.register::<TestComponentA, _>("A", make::<TestComponentA>);
    reg.register::<TestComponentB, _>("B", make::<TestComponentB>);
    assert_eq!(reg.registered_count(), 2);
}

#[test]
fn test_reregistered_type_keeps_last_name() {
    let mut reg: ComponentRegistry<Boxed> = ComponentRegistry::new();
    reg.register::<TestComponentA, _>("First", make::<TestComponentA>);
    reg.register_with_order::<TestComponentA, _>("Second", make::<TestComponentA>, 7);
    assert_eq!(reg.get_name_by_type::<TestComponentA>(), Some("Second"));
    assert_eq!(reg.get_execution_order("First"), Some(0));
    assert_eq!(reg.get_execution_order("Second"), Some(7));
    assert_eq!(reg.get_execution_order("Third"), None);
    assert_eq!(reg.registered_count(), 2);
}
