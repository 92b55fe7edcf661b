//! The messages that a run hands to whoever presents it: log lines, the
//! progress line and the notices about the run as a whole.

use vstd::prelude::*;
use crate::text::{decimal, decimal_of, string_of};

verus! {

/// Log line at the start of the search for one target.
pub open spec fn starting_text() -> Seq<char> {
    "Starting search..."@
}

/// Log line for a directory that is about to be listed.
pub open spec fn searching_folder_text(path: Seq<char>) -> Seq<char> {
    "Searching in folder: "@ + path
}

/// Log line for a file that is about to be read.
pub open spec fn searching_file_text(path: Seq<char>) -> Seq<char> {
    "Searching file: "@ + path
}

/// Log line for a directory or file that could not be read.
pub open spec fn unreadable_text(path: Seq<char>, reason: Seq<char>) -> Seq<char> {
    "Error reading "@ + path + ": "@ + reason
}

/// Log line for a file whose content could not be transcoded.
pub open spec fn undecodable_file_text(path: Seq<char>) -> Seq<char> {
    "Error decoding file: "@ + path
}

/// Log line for a row that is not well-formed text and was passed over.
pub open spec fn undecodable_line_text(path: Seq<char>, row: nat) -> Seq<char> {
    "Error decoding line "@ + decimal(row) + " of "@ + path
}

/// Log line for an answer that does not fit what was asked for `path`.
pub open spec fn unexpected_reply_text(path: Seq<char>) -> Seq<char> {
    "Unexpected reply for "@ + path
}

/// Log line for a match that was written to the results file.
pub open spec fn match_found_text(line: Seq<char>) -> Seq<char> {
    "Match found: "@ + line
}

/// Log line for a match that could not be written to the results file.
pub open spec fn write_failed_text(reason: Seq<char>) -> Seq<char> {
    "Error writing result: "@ + reason
}

/// Log line for a target whose search failed as a whole.
pub open spec fn search_failed_text(target: Seq<char>, reason: Seq<char>) -> Seq<char> {
    "Error searching email "@ + target + ": "@ + reason
}

/// Notice that every target has been searched.
pub open spec fn completed_text() -> Seq<char> {
    "Search completed."@
}

/// The progress line.
pub open spec fn progress_text(completed: nat, total: nat) -> Seq<char> {
    "Processed: "@ + decimal(completed) + "/"@ + decimal(total)
}

/// Status while a run is under way.
pub open spec fn in_progress_text() -> Seq<char> {
    "Search in progress..."@
}

/// Status when the results file could not be created.
pub open spec fn results_file_failed_text(reason: Seq<char>) -> Seq<char> {
    "Error creating results file: "@ + reason
}

/// Status when a run is asked for before a folder and a list are chosen.
pub open spec fn selection_missing_text() -> Seq<char> {
    "Please select a folder and email list first"@
}

/// Status after a comparison that found `count` addresses.
pub open spec fn comparison_complete_text(count: nat) -> Seq<char> {
    "Comparison complete. "@ + decimal(count) + " unique emails found."@
}

/// Status after a comparison that failed.
pub open spec fn comparison_failed_text(reason: Seq<char>) -> Seq<char> {
    "Error during comparison: "@ + reason
}

/// Status when a comparison is asked for before its files are chosen.
pub open spec fn comparison_missing_text() -> Seq<char> {
    "Please select both input files and an output file."@
}

/// Status for a file that could not be processed.
pub open spec fn processing_failed_text(file: Seq<char>, reason: Seq<char>) -> Seq<char> {
    "Error processing "@ + file + ": "@ + reason
}

/// Status for a file that was processed.
pub open spec fn processed_text(file: Seq<char>) -> Seq<char> {
    "Processed: "@ + file
}

/// Status once every file was processed.
pub open spec fn all_processed_text() -> Seq<char> {
    "All files processed"@
}

/// Status for a file whose telephone numbers were extracted.
pub open spec fn extracted_text(file: Seq<char>) -> Seq<char> {
    "Extracted phone numbers from: "@ + file
}

/// Status when the telephone numbers could not be saved.
pub open spec fn saving_failed_text(reason: Seq<char>) -> Seq<char> {
    "Error saving phone numbers: "@ + reason
}

/// Status once the telephone numbers are saved.
pub open spec fn saved_text() -> Seq<char> {
    "Phone numbers extracted and saved to 'phone_numbers.txt'"@
}

/// A fixed text followed by a given one.
fn prefixed(head: &str, tail: &str) -> (s: String)
    ensures
        s@ == head@ + tail@,
{
    String::from_str(head).concat(tail)
}

/// Log line at the start of the search for one target.
pub fn starting() -> (s: String)
    ensures
        s@ == starting_text(),
{
    String::from_str("Starting search...")
}

/// Log line for a directory that is about to be listed.
pub fn searching_folder(path: &str) -> (s: String)
    ensures
        s@ == searching_folder_text(path@),
{
    prefixed("Searching in folder: ", path)
}

/// Log line for a file that is about to be read.
pub fn searching_file(path: &str) -> (s: String)
    ensures
        s@ == searching_file_text(path@),
{
    prefixed("Searching file: ", path)
}

/// Log line for a directory or file that could not be read.
pub fn unreadable(path: &str, reason: &str) -> (s: String)
    ensures
        s@ == unreadable_text(path@, reason@),
{
    prefixed("Error reading ", path).concat(": ").concat(reason)
}

/// Log line for a file whose content could not be transcoded.
pub fn undecodable_file(path: &str) -> (s: String)
    ensures
        s@ == undecodable_file_text(path@),
{
    prefixed("Error decoding file: ", path)
}

/// Log line for a row that is not well-formed text and was passed over.
pub fn undecodable_line(path: &str, row: usize) -> (s: String)
    ensures
        s@ == undecodable_line_text(path@, row as nat),
{
    let number = string_of(&decimal_of(row));
    prefixed("Error decoding line ", number.as_str()).concat(" of ").concat(path)
}

/// Log line for an answer that does not fit what was asked for `path`.
pub fn unexpected_reply(path: &str) -> (s: String)
    ensures
        s@ == unexpected_reply_text(path@),
{
    prefixed("Unexpected reply for ", path)
}

/// Log line for a match that was written to the results file.
pub fn match_found(line: &str) -> (s: String)
    ensures
        s@ == match_found_text(line@),
{
    prefixed("Match found: ", line)
}

/// Log line for a match that could not be written to the results file.
pub fn write_failed(reason: &str) -> (s: String)
    ensures
        s@ == write_failed_text(reason@),
{
    prefixed("Error writing result: ", reason)
}

/// Log line for a target whose search failed as a whole.
pub fn search_failed(target: &str, reason: &str) -> (s: String)
    ensures
        s@ == search_failed_text(target@, reason@),
{
    prefixed("Error searching email ", target).concat(": ").concat(reason)
}

/// Notice that every target has been searched.
pub fn completed() -> (s: String)
    ensures
        s@ == completed_text(),
{
    String::from_str("Search completed.")
}

/// The progress line.
pub fn progress(completed: usize, total: usize) -> (s: String)
    ensures
        s@ == progress_text(completed as nat, total as nat),
{
    let done = string_of(&decimal_of(completed));
    let all = string_of(&decimal_of(total));
    prefixed("Processed: ", done.as_str()).concat("/").concat(all.as_str())
}

/// Status while a run is under way.
pub fn in_progress() -> (s: String)
    ensures
        s@ == in_progress_text(),
{
    String::from_str("Search in progress...")
}

/// Status when the results file could not be created.
pub fn results_file_failed(reason: &str) -> (s: String)
    ensures
        s@ == results_file_failed_text(reason@),
{
    prefixed("Error creating results file: ", reason)
}

/// Status when a run is asked for before a folder and a list are chosen.
pub fn selection_missing() -> (s: String)
    ensures
        s@ == selection_missing_text(),
{
    String::from_str("Please select a folder and email list first")
}

/// Status after a comparison that found `count` addresses.
pub fn comparison_complete(count: usize) -> (s: String)
    ensures
        s@ == comparison_complete_text(count as nat),
{
    let number = string_of(&decimal_of(count));
    prefixed("Comparison complete. ", number.as_str()).concat(" unique emails found.")
}

/// Status after a comparison that failed.
pub fn comparison_failed(reason: &str) -> (s: String)
    ensures
        s@ == comparison_failed_text(reason@),
{
    prefixed("Error during comparison: ", reason)
}

/// Status when a comparison is asked for before its files are chosen.
pub fn comparison_missing() -> (s: String)
    ensures
        s@ == comparison_missing_text(),
{
    String::from_str("Please select both input files and an output file.")
}

/// Status for a file that could not be processed.
pub fn processing_failed(file: &str, reason: &str) -> (s: String)
    ensures
        s@ == processing_failed_text(file@, reason@),
{
    prefixed("Error processing ", file).concat(": ").concat(reason)
}

/// Status for a file that was processed.
pub fn processed(file: &str) -> (s: String)
    ensures
        s@ == processed_text(file@),
{
    prefixed("Processed: ", file)
}

/// Status once every file was processed.
pub fn all_processed() -> (s: String)
    ensures
        s@ == all_processed_text(),
{
    String::from_str("All files processed")
}

/// Status for a file whose telephone numbers were extracted.
pub fn extracted(file: &str) -> (s: String)
    ensures
        s@ == extracted_text(file@),
{
    prefixed("Extracted phone numbers from: ", file)
}

/// Status when the telephone numbers could not be saved.
pub fn saving_failed(reason: &str) -> (s: String)
    ensures
        s@ == saving_failed_text(reason@),
{
    prefixed("Error saving phone numbers: ", reason)
}

/// Status once the telephone numbers are saved.
pub fn saved() -> (s: String)
    ensures
        s@ == saved_text(),
{
    String::from_str("Phone numbers extracted and saved to 'phone_numbers.txt'")
}

} // verus!
