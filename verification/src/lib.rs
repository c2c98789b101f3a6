//! Domain logic of a Discord-to-Obsidian URL clipper: settings, channel
//! folders, message file names, storage plans, and HTML-to-Markdown framing.
pub mod domain;
pub mod text;
pub mod html_to_markdown;
