//! Requests made with the `curl` command, and the parsing of what it
//! prints: status code, header lines and body of the final response.
//!
//! A request is built step by step and gives the arguments to run `curl`
//! with; running it is left to the caller. What `curl` prints is parsed
//! into a response:
//!
//! ```
//! use curl_wrapper::{Curl, CurlResponse, Method};
//!
//! let request = Curl::new("https://example.com").method(Method::GET).redirects(true);
//! let args = request.args();
//! assert_eq!(args, ["--silent", "--include", "-L", "-X", "GET", "https://example.com"]);
//!
//! let output = b"HTTP/1.1 200 OK\r\nContent-Type: text/html\r\n\r\n<html>Hi</html>";
//! let response = CurlResponse::new(output.to_vec());
//! assert_eq!(response.status_code, 200);
//! assert_eq!(response.headers, ["Content-Type: text/html"]);
//! assert_eq!(response.body, "<html>Hi</html>");
//! ```
//!
//! # What is proved, and what is believed
//!
//! The functions of this library are verified with Verus against the
//! contracts in their headers. Three contracts are believed, not proved:
//! they say what code outside this library does.
//!
//! - `String::push` of std appends a character (in [`text`]).
//! - `String::from_utf8_lossy` of std decodes bytes; its result has the
//!   name [`decode::lossy_text`], and is known for valid UTF-8.
//! - The crate `regex` searches a text for a pattern; what it finds has
//!   the name [`status::regex_captures`], and is a piece of the text.
//!
//! What the search finds is held against the form of a status line before
//! a status is read off it. So the status of a response is always the
//! code of a status line that stands in the output, whatever the search
//! does; that it finds the first status line of each message is believed.

pub mod blocks;
pub mod decode;
pub mod lines;
pub mod request;
pub mod response;
pub mod status;
pub mod text;

pub use request::{Curl, CurlBuilder, Method};
pub use response::CurlResponse;
