pub mod config;
pub mod dispatch;
pub mod error;
pub mod events;
pub mod exec;
pub mod game;
pub mod game_laws;
pub mod ordered;
pub mod package_name;
pub mod path;
pub mod preload;
pub mod runtime;
pub mod services;
pub mod state;
pub mod text;
pub mod text_laws;

pub use config::EngineConfig;
pub use dispatch::{Dispatcher, EngineAction};
pub use error::EngineError;
pub use events::EngineEvent;
pub use game::{
    game_targets_from_installed, load_game_list, load_managed_game_downscales, parse_game_list,
    parse_managed_game_downscales, write_managed_game_downscales, GameList, ManagedGameDownscale,
    ManagedGameDownscales,
};
pub use runtime::EngineRuntime;
pub use state::{EngineState, Reducer};
