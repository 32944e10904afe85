use vstd::prelude::*;

verus! {

/// Something that can be drawn on a screen.
pub trait Draw {
    /// Draws the component.
    fn draw(&self);
}

/// A screen: the components on it, of whatever kinds, in the order in which
/// they are drawn.
pub struct Screen {
    pub components: Vec<Box<dyn Draw>>,
}

/// A button with its size and its label.
pub struct Button {
    pub width: u32,
    pub height: u32,
    pub label: String,
}

impl Draw for Button {
    fn draw(&self) {
    }
}

impl Screen {
    /// Draws every component once, the first one first.
    pub fn run(&self) {
        let mut i: usize = 0;
        while i < self.components.len()
            invariant
                i <= self.components.len(),
            decreases self.components.len() - i,
        {
            self.components[i].draw();
            i = i + 1;
        }
    }
}

} // verus!
