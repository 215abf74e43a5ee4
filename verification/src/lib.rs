//! Word-frequency statistics over chat transcripts.
//!
//! A transcript is a list of messages, each by an author and made of styled
//! text segments. The library cuts the text into words, strips emoji from
//! them, and counts how often each word occurs, over the whole chat and per
//! author. The functions carry contracts, and Verus proves them. Three
//! small functions are the exception: each only calls another crate, to cut
//! a text into grapheme clusters, to look up an emoji and to ask for the
//! number of threads, and what its contract says of that crate is taken on
//! trust. They are marked as not verified where they stand.
//!
//! The work is laid out so that it can be shared among workers:
//! [`partition`] divides the messages into runs, [`aggregate`] counts one
//! run without looking at any other, and [`ChatStatistics::reduce`] adds up
//! what was counted, in whatever order it comes in.
//! [`ChatStatistics::gather_with_workers`] does all of this in one thread.
//! The module [`laws`] states what holds of the result.

pub mod aggregate;
mod assoc;
pub mod authors;
pub mod counting;
mod index;
pub mod laws;
pub mod model;
pub mod normalize;
pub mod partition;
pub mod runs;
pub mod split;
pub mod stats;
pub mod sums;
pub mod tally;
pub mod tokenize;

pub use aggregate::{aggregate, is_ready};
pub use authors::AuthorTallies;
pub use model::{
    is_countable_message, is_countable_segment, Chat, ChatType, Id, Message, MessageType, Person,
    TextEntity, TextEntityType, Token,
};
pub use normalize::{is_emoji_only, remove_emojis, settles_in_one_pass};
pub use partition::{partition, ChunkRange};
pub use split::{is_separator_char, split_fragments};
pub use stats::{ChatStatistics, GatherError};
pub use tally::FrequencyMap;
pub use tokenize::{has_only_emoji_fragments, tokenize};
