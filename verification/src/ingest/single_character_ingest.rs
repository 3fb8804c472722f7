//! Single character ingestion: configuration, the check of a character
//! entry, and the processing entry point.

use vstd::prelude::*;
use crate::text;
use crate::text::{chars_of, trim_chars};

verus! {

/// Configuration for single character processing.
#[derive(Debug, Clone)]
pub struct SingleCharacterConfig {
    /// Maximum embedding length for chunks.
    pub max_embed_len: usize,
    /// Maximum retry attempts for embedding.
    pub max_retries: usize,
    /// Retry delay in seconds.
    pub retry_delay: usize,
    /// Model name for embeddings.
    pub model: String,
}

impl Default for SingleCharacterConfig {
    fn default() -> (r: Self)
        ensures
            r.max_embed_len == 250,
            r.max_retries == 3,
            r.retry_delay == 5,
            r.model@ == "harald-phi4"@,
    {
        SingleCharacterConfig {
            max_embed_len: 250,
            max_retries: 3,
            retry_delay: 5,
            model: String::from_str("harald-phi4"),
        }
    }
}

/// Result of single character processing.
#[derive(Debug, Clone)]
pub struct ProcessingResult {
    /// Number of files created.
    pub files_created: usize,
    /// Number of embeddings generated.
    pub embeddings_generated: usize,
    /// Success status.
    pub success: bool,
    /// Error message if any.
    pub error: Option<String>,
}

/// What a character entry holds under `character_name`.
#[derive(Debug, Clone)]
pub enum NameField {
    /// The key is absent.
    Missing,
    /// The value is a string.
    Text(String),
    /// The value has another JSON type.
    NotText,
}

/// The shape of a character entry, as far as its check reads it.
#[derive(Debug, Clone)]
pub enum CharacterEntry {
    /// The entry is not a JSON object.
    NotObject,
    /// The entry is a JSON object.
    Object { character_name: NameField },
}

/// The message when processing is asked for.
pub open spec fn not_implemented_message() -> Seq<char> {
    "Single character processing is not yet implemented - under refactoring"@
}

/// The error that the check of `entry` reports, if any.
pub open spec fn entry_error(entry: CharacterEntry) -> Option<Seq<char>> {
    match entry {
        CharacterEntry::NotObject => Some("Character entry must be a JSON object"@),
        CharacterEntry::Object { character_name } => match character_name {
            NameField::Missing => Some("Character entry must have 'character_name' field"@),
            NameField::NotText => Some("Character name must be a string"@),
            NameField::Text(name) => if text::trim(name@).len() == 0 {
                Some("Character name cannot be empty"@)
            } else {
                None
            },
        },
    }
}

/// Processes a single character entry.  Processing is not available yet:
/// every call answers with an error saying so.
pub fn process_character(
    character: &CharacterEntry,
    output_dir: &str,
    config: &SingleCharacterConfig,
) -> (r: Result<ProcessingResult, String>)
    ensures
        r matches Err(e) && e@ == not_implemented_message(),
{
    Err(String::from_str("Single character processing is not yet implemented - under refactoring"))
}

/// Validates a single character entry: it must be an object whose
/// `character_name` is a string with more than whitespace.
pub fn validate_character_entry(character: &CharacterEntry) -> (r: Result<(), String>)
    ensures
        r is Ok <==> entry_error(*character) is None,
        r matches Err(e) ==> entry_error(*character) == Some(e@),
{
    match character {
        CharacterEntry::NotObject => Err(String::from_str("Character entry must be a JSON object")),
        CharacterEntry::Object { character_name } => match character_name {
            NameField::Missing => Err(
                String::from_str("Character entry must have 'character_name' field"),
            ),
            NameField::NotText => Err(String::from_str("Character name must be a string")),
            NameField::Text(name) => {
                let v = chars_of(name.as_str());
                let t = trim_chars(&v);
                if t.len() == 0 {
                    Err(String::from_str("Character name cannot be empty"))
                } else {
                    Ok(())
                }
            },
        },
    }
}

} // verus!
