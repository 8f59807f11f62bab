pub mod browse;
pub mod browse_laws;
pub mod disk;
pub mod input;
pub mod layout;
pub mod net;
pub mod number;
pub mod order;
pub mod path;
pub mod scan;
pub mod setting;
pub mod style;
pub mod text;
pub mod text_laws;
pub mod ui;
pub mod ui_laws;
pub mod width;
