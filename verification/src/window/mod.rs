pub mod page_state;
pub mod panel;
pub mod view;

pub use self::page_state::LllPageState;
pub use self::panel::LllPanel;
pub use self::view::LllView;
