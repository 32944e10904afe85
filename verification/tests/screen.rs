use std::cell::Cell;
use std::rc::Rc;
use workbench::screen::{Button, Draw, Screen};

struct Probe {
    name: u32,
    log: Rc<Cell<u32>>,
}

impl Draw for Probe {
    fn draw(&self) {
        self.log.set(self.log.get() * 10 + self.name);
    }
}

#[test]
fn screen_draws_each_component_once_in_order() {
    let log = Rc::new(Cell::new(0));
    let screen = Screen {
        components: vec![
            Box::new(Probe { name: 1, log: Rc::clone(&log) }),
            Box::new(Button { width: 50, height: 10, label: String::from("OK") }),
            Box::new(Probe { name: 2, log: Rc::clone(&log) }),
            Box::new(Probe { name: 3, log: Rc::clone(&log) }),
        ],
    };
    screen.run();
    assert_eq!(123, log.get());
}

#[test]
fn empty_screen_draws_nothing() {
    let screen = Screen { components: Vec::new() };
    screen.run();
    assert!(screen.components.is_empty());
}

#[test]
fn button_keeps_its_fields() {
    let button = Button { width: 75, height: 10, label: String::from("Cancel") };
    button.draw();
    assert_eq!(75, button.width);
    assert_eq!(10, button.height);
    assert_eq!("Cancel", button.label);
}
