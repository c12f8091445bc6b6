pub mod clock;
pub mod codec;
pub mod dates;
pub mod errors;
pub mod reading_list;
pub mod select;
pub mod slack_message;
pub mod stand_up;
pub mod store;
pub mod timelog;
