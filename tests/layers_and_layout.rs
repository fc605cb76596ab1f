use std::cell::RefCell;
use std::rc::Rc;
use thermite_core::opengl::buffer_layout::{BufferComponent, BufferComponentType, BufferLayout};
use thermite_core::platform::layer::{Layer, LayerStack};

struct Named {
    id: u32,
    name: &'static str,
    log: Rc<RefCell<Vec<String>>>,
}

impl Layer for Named {
    fn spec_id(&self) -> u32 {
        self.id
    }

    fn on_attach(&self) {
        self.log.borrow_mut().push(format!("attach {}", self.name));
    }

    fn on_detach(&self) {
        self.log.borrow_mut().push(format!("detach {}", self.name));
    }

    fn on_update(&self) {}

    fn id(&self) -> u32 {
        self.id
    }

    fn debug_name(&self) -> &str {
        self.name
    }
}

fn names(stack: &LayerStack<Named>) -> Vec<&'static str> {
    stack.layers().iter().map(|l| l.name).collect()
}

#[test]
fn layers_stay_under_overlays() {
    let log = Rc::new(RefCell::new(Vec::new()));
    let mut stack = LayerStack::new();
    stack.push_layer(Named { id: 1, name: "world", log: log.clone() });
    stack.push_overlay(Named { id: 2, name: "hud", log: log.clone() });
    stack.push_layer(Named { id: 3, name: "debug", log: log.clone() });
    assert_eq!(names(&stack), vec!["world", "debug", "hud"]);
    let probe = Named { id: 1, name: "probe", log: log.clone() };
    let popped = stack.pop_layer(&probe).unwrap();
    assert_eq!(popped.debug_name(), "world");
    assert_eq!(names(&stack), vec!["debug", "hud"]);
    let overlay_probe = Named { id: 2, name: "probe", log: log.clone() };
    assert!(stack.pop_layer(&overlay_probe).is_none());
    assert_eq!(stack.pop_overlay().map(|l| l.name), Some("hud"));
    assert!(stack.pop_overlay().is_none());
    assert_eq!(names(&stack), vec!["debug"]);
    assert_eq!(
        *log.borrow(),
        vec!["attach world", "attach hud", "attach debug", "detach world", "detach hud"]
    );
}

#[test]
fn component_sizes_and_counts() {
    let cases = [
        (BufferComponentType::Float, 4, 1),
        (BufferComponentType::Float2, 8, 2),
        (BufferComponentType::Float3, 12, 3),
        (BufferComponentType::Float4, 16, 4),
        (BufferComponentType::Int, 4, 1),
        (BufferComponentType::Int2, 8, 2),
        (BufferComponentType::Int3, 12, 3),
        (BufferComponentType::Int4, 16, 4),
        (BufferComponentType::Mat3, 36, 3),
        (BufferComponentType::Mat4, 64, 4),
        (BufferComponentType::Bool, 1, 1),
    ];
    for (kind, size, count) in cases {
        let c = BufferComponent::new("attr".to_string(), kind, true);
        assert_eq!(*c.size(), size);
        assert_eq!(*c.count(), count);
        assert_eq!(*c.kind(), kind);
        assert_eq!(*c.offset(), 0);
        assert!(*c.normalized());
    }
}

#[test]
fn layout_places_components_back_to_back() {
    let components = vec![
        BufferComponent::new("position".to_string(), BufferComponentType::Float3, false),
        BufferComponent::new("color".to_string(), BufferComponentType::Float4, false),
        BufferComponent::new("visible".to_string(), BufferComponentType::Bool, false),
        BufferComponent::new("transform".to_string(), BufferComponentType::Mat4, true),
    ];
    let layout = BufferLayout::new(components);
    assert_eq!(*layout.stride(), 12 + 16 + 1 + 64);
    let offsets: Vec<usize> = layout.components().iter().map(|c| *c.offset()).collect();
    assert_eq!(offsets, vec![0, 12, 28, 29]);
    assert!(*layout.components()[3].normalized());
}

#[test]
fn empty_layout_has_no_stride() {
    let layout = BufferLayout::new(Vec::new());
    assert_eq!(*layout.stride(), 0);
    assert!(layout.components().is_empty());
}

#[test]
fn set_offset_moves_only_the_offset() {
    let mut c = BufferComponent::new("uv".to_string(), BufferComponentType::Float2, false);
    c.set_offset(24);
    assert_eq!(*c.offset(), 24);
    assert_eq!(*c.size(), 8);
}
