//! The widget-tree runtime of a desktop GUI toolkit: a tree of widgets that
//! is laid out by passing constraints down and sizes up, painted in child
//! order and sent input events by hit testing, together with the plain-value
//! side of the window shim that drives it.

pub mod geometry;
pub mod widget;
pub mod graph;
pub mod layout;
pub mod hit;
pub mod order;
pub mod ui;
pub mod window;
