//! Numeric status codes and their reason phrases.

use vstd::prelude::*;
use vstd::string::StringExecFns;
use crate::text::dec_str;

verus! {

/// A response status code.  Any non-negative integer is accepted: codes
/// absent from the reason table simply have an empty reason phrase.
#[derive(Clone, Copy, Debug, PartialEq, Eq, Structural)]
pub struct ResponseCode(pub usize);

/// The reason phrase belonging to a status code; the empty sequence for
/// any code outside the table.
pub open spec fn reason_phrase(c: nat) -> Seq<char> {
    if c == 100 {
        "Continue"@
    } else if c == 101 {
        "Switching Protocols"@
    } else if c == 102 {
        "Processing"@
    } else if c == 103 {
        "Early Hints"@
    } else if c == 200 {
        "OK"@
    } else if c == 201 {
        "Created"@
    } else if c == 202 {
        "Accepted"@
    } else if c == 203 {
        "Non-Authoritative Information"@
    } else if c == 204 {
        "No Content"@
    } else if c == 205 {
        "Reset Content"@
    } else if c == 206 {
        "Partial Content"@
    } else if c == 207 {
        "Multi-Status"@
    } else if c == 208 {
        "Already Reported"@
    } else if c == 218 {
        "This is fine"@
    } else if c == 226 {
        "IM Used"@
    } else if c == 300 {
        "Multiple Choices"@
    } else if c == 301 {
        "Moved Permanently"@
    } else if c == 302 {
        "Found"@
    } else if c == 303 {
        "See Other"@
    } else if c == 304 {
        "Not Modified"@
    } else if c == 305 {
        "Use Proxy"@
    } else if c == 306 {
        "Switch Proxy"@
    } else if c == 307 {
        "Temporary Redirect"@
    } else if c == 308 {
        "Permanent Redirect"@
    } else if c == 400 {
        "Bad Request"@
    } else if c == 401 {
        "Unauthorized"@
    } else if c == 402 {
        "Payment Required"@
    } else if c == 403 {
        "Forbidden"@
    } else if c == 404 {
        "Not Found"@
    } else if c == 405 {
        "Method Not Allowed"@
    } else if c == 406 {
        "Not Acceptable"@
    } else if c == 407 {
        "Proxy Authentication Required"@
    } else if c == 408 {
        "Request Timeout"@
    } else if c == 409 {
        "Conflict"@
    } else if c == 410 {
        "Gone"@
    } else if c == 411 {
        "Length Required"@
    } else if c == 412 {
        "Precondition Failed"@
    } else if c == 413 {
        "Content Too Large"@
    } else if c == 414 {
        "URI Too Long"@
    } else if c == 415 {
        "Unsupported Media Type"@
    } else if c == 416 {
        "Range Not Satisfiable"@
    } else if c == 417 {
        "Expectation Failed"@
    } else if c == 418 {
        "I'm a teapot"@
    } else if c == 421 {
        "Misdirected Request"@
    } else if c == 422 {
        "Unprocessable Content"@
    } else if c == 423 {
        "Locked"@
    } else if c == 424 {
        "Failed Dependency"@
    } else if c == 425 {
        "Too Early"@
    } else if c == 426 {
        "Upgrade Required"@
    } else if c == 428 {
        "Precondition Required"@
    } else if c == 429 {
        "Too Many Requests"@
    } else if c == 431 {
        "Request Header Fields Too Large"@
    } else if c == 440 {
        "Login Time-out"@
    } else if c == 444 {
        "Connection Closed Without Response"@
    } else if c == 449 {
        "Retry With"@
    } else if c == 450 {
        "Blocked by Windows Parental Controls"@
    } else if c == 451 {
        "Unavailable For Legal Reasons"@
    } else if c == 494 {
        "Request Header Too Large"@
    } else if c == 495 {
        "SSL Certificate Error"@
    } else if c == 496 {
        "SSL Certificate Required"@
    } else if c == 497 {
        "HTTP Request Sent to HTTPS Port"@
    } else if c == 499 {
        "Client Closed Request"@
    } else if c == 500 {
        "Internal Server Error"@
    } else if c == 501 {
        "Not Implemented"@
    } else if c == 502 {
        "Bad Gateway"@
    } else if c == 503 {
        "Service Unavailable"@
    } else if c == 504 {
        "Gateway Timeout"@
    } else if c == 505 {
        "HTTP Version Not Supported"@
    } else if c == 506 {
        "Variant Also Negotiates"@
    } else if c == 507 {
        "Insufficient Storage"@
    } else if c == 508 {
        "Loop Detected"@
    } else if c == 509 {
        "Bandwidth Limit Exceeded"@
    } else if c == 510 {
        "Not Extended"@
    } else if c == 511 {
        "Network Authentication Required"@
    } else if c == 520 {
        "Unknown Error"@
    } else if c == 521 {
        "Web Server Is Down"@
    } else if c == 522 {
        "Connection Timed Out"@
    } else if c == 523 {
        "Origin Is Unreachable"@
    } else if c == 524 {
        "A Timeout Occurred"@
    } else if c == 525 {
        "SSL Handshake Failed"@
    } else if c == 526 {
        "Invalid SSL Certificate"@
    } else if c == 527 {
        "Railgun Listener to Origin Error"@
    } else if c == 530 {
        "Origin DNS Error"@
    } else if c == 598 {
        "Network Read Timeout Error"@
    } else {
        Seq::<char>::empty()
    }
}

impl ResponseCode {
    /// The reason phrase of this code, or the empty string for a code the
    /// table does not know.
    pub fn get_name(&self) -> (r: String)
        ensures
            r@ == reason_phrase(self.0 as nat),
    {
        proof {
            reveal_strlit("Continue");
            reveal_strlit("Switching Protocols");
            reveal_strlit("Processing");
            reveal_strlit("Early Hints");
            reveal_strlit("OK");
            reveal_strlit("Created");
            reveal_strlit("Accepted");
            reveal_strlit("Non-Authoritative Information");
            reveal_strlit("No Content");
            reveal_strlit("Reset Content");
            reveal_strlit("Partial Content");
            reveal_strlit("Multi-Status");
            reveal_strlit("Already Reported");
            reveal_strlit("This is fine");
            reveal_strlit("IM Used");
            reveal_strlit("Multiple Choices");
            reveal_strlit("Moved Permanently");
            reveal_strlit("Found");
            reveal_strlit("See Other");
            reveal_strlit("Not Modified");
            reveal_strlit("Use Proxy");
            reveal_strlit("Switch Proxy");
            reveal_strlit("Temporary Redirect");
            reveal_strlit("Permanent Redirect");
            reveal_strlit("Bad Request");
            reveal_strlit("Unauthorized");
            reveal_strlit("Payment Required");
            reveal_strlit("Forbidden");
            reveal_strlit("Not Found");
            reveal_strlit("Method Not Allowed");
            reveal_strlit("Not Acceptable");
            reveal_strlit("Proxy Authentication Required");
            reveal_strlit("Request Timeout");
            reveal_strlit("Conflict");
            reveal_strlit("Gone");
            reveal_strlit("Length Required");
            reveal_strlit("Precondition Failed");
            reveal_strlit("Content Too Large");
            reveal_strlit("URI Too Long");
            reveal_strlit("Unsupported Media Type");
            reveal_strlit("Range Not Satisfiable");
            reveal_strlit("Expectation Failed");
            reveal_strlit("I'm a teapot");
            reveal_strlit("Misdirected Request");
            reveal_strlit("Unprocessable Content");
            reveal_strlit("Locked");
            reveal_strlit("Failed Dependency");
            reveal_strlit("Too Early");
            reveal_strlit("Upgrade Required");
            reveal_strlit("Precondition Required");
            reveal_strlit("Too Many Requests");
            reveal_strlit("Request Header Fields Too Large");
            reveal_strlit("Login Time-out");
            reveal_strlit("Connection Closed Without Response");
            reveal_strlit("Retry With");
            reveal_strlit("Blocked by Windows Parental Controls");
            reveal_strlit("Unavailable For Legal Reasons");
            reveal_strlit("Request Header Too Large");
            reveal_strlit("SSL Certificate Error");
            reveal_strlit("SSL Certificate Required");
            reveal_strlit("HTTP Request Sent to HTTPS Port");
            reveal_strlit("Client Closed Request");
            reveal_strlit("Internal Server Error");
            reveal_strlit("Not Implemented");
            reveal_strlit("Bad Gateway");
            reveal_strlit("Service Unavailable");
            reveal_strlit("Gateway Timeout");
            reveal_strlit("HTTP Version Not Supported");
            reveal_strlit("Variant Also Negotiates");
            reveal_strlit("Insufficient Storage");
            reveal_strlit("Loop Detected");
            reveal_strlit("Bandwidth Limit Exceeded");
            reveal_strlit("Not Extended");
            reveal_strlit("Network Authentication Required");
            reveal_strlit("Unknown Error");
            reveal_strlit("Web Server Is Down");
            reveal_strlit("Connection Timed Out");
            reveal_strlit("Origin Is Unreachable");
            reveal_strlit("A Timeout Occurred");
            reveal_strlit("SSL Handshake Failed");
            reveal_strlit("Invalid SSL Certificate");
            reveal_strlit("Railgun Listener to Origin Error");
            reveal_strlit("Origin DNS Error");
            reveal_strlit("Network Read Timeout Error");
        }
        match self.0 {
            100 => String::from_str("Continue"),
            101 => String::from_str("Switching Protocols"),
            102 => String::from_str("Processing"),
            103 => String::from_str("Early Hints"),
            200 => String::from_str("OK"),
            201 => String::from_str("Created"),
            202 => String::from_str("Accepted"),
            203 => String::from_str("Non-Authoritative Information"),
            204 => String::from_str("No Content"),
            205 => String::from_str("Reset Content"),
            206 => String::from_str("Partial Content"),
            207 => String::from_str("Multi-Status"),
            208 => String::from_str("Already Reported"),
            218 => String::from_str("This is fine"),
            226 => String::from_str("IM Used"),
            300 => String::from_str("Multiple Choices"),
            301 => String::from_str("Moved Permanently"),
            302 => String::from_str("Found"),
            303 => String::from_str("See Other"),
            304 => String::from_str("Not Modified"),
            305 => String::from_str("Use Proxy"),
            306 => String::from_str("Switch Proxy"),
            307 => String::from_str("Temporary Redirect"),
            308 => String::from_str("Permanent Redirect"),
            400 => String::from_str("Bad Request"),
            401 => String::from_str("Unauthorized"),
            402 => String::from_str("Payment Required"),
            403 => String::from_str("Forbidden"),
            404 => String::from_str("Not Found"),
            405 => String::from_str("Method Not Allowed"),
            406 => String::from_str("Not Acceptable"),
            407 => String::from_str("Proxy Authentication Required"),
            408 => String::from_str("Request Timeout"),
            409 => String::from_str("Conflict"),
            410 => String::from_str("Gone"),
            411 => String::from_str("Length Required"),
            412 => String::from_str("Precondition Failed"),
            413 => String::from_str("Content Too Large"),
            414 => String::from_str("URI Too Long"),
            415 => String::from_str("Unsupported Media Type"),
            416 => String::from_str("Range Not Satisfiable"),
            417 => String::from_str("Expectation Failed"),
            418 => String::from_str("I'm a teapot"),
            421 => String::from_str("Misdirected Request"),
            422 => String::from_str("Unprocessable Content"),
            423 => String::from_str("Locked"),
            424 => String::from_str("Failed Dependency"),
            425 => String::from_str("Too Early"),
            426 => String::from_str("Upgrade Required"),
            428 => String::from_str("Precondition Required"),
            429 => String::from_str("Too Many Requests"),
            431 => String::from_str("Request Header Fields Too Large"),
            440 => String::from_str("Login Time-out"),
            444 => String::from_str("Connection Closed Without Response"),
            449 => String::from_str("Retry With"),
            450 => String::from_str("Blocked by Windows Parental Controls"),
            451 => String::from_str("Unavailable For Legal Reasons"),
            494 => String::from_str("Request Header Too Large"),
            495 => String::from_str("SSL Certificate Error"),
            496 => String::from_str("SSL Certificate Required"),
            497 => String::from_str("HTTP Request Sent to HTTPS Port"),
            499 => String::from_str("Client Closed Request"),
            500 => String::from_str("Internal Server Error"),
            501 => String::from_str("Not Implemented"),
            502 => String::from_str("Bad Gateway"),
            503 => String::from_str("Service Unavailable"),
            504 => String::from_str("Gateway Timeout"),
            505 => String::from_str("HTTP Version Not Supported"),
            506 => String::from_str("Variant Also Negotiates"),
            507 => String::from_str("Insufficient Storage"),
            508 => String::from_str("Loop Detected"),
            509 => String::from_str("Bandwidth Limit Exceeded"),
            510 => String::from_str("Not Extended"),
            511 => String::from_str("Network Authentication Required"),
            520 => String::from_str("Unknown Error"),
            521 => String::from_str("Web Server Is Down"),
            522 => String::from_str("Connection Timed Out"),
            523 => String::from_str("Origin Is Unreachable"),
            524 => String::from_str("A Timeout Occurred"),
            525 => String::from_str("SSL Handshake Failed"),
            526 => String::from_str("Invalid SSL Certificate"),
            527 => String::from_str("Railgun Listener to Origin Error"),
            530 => String::from_str("Origin DNS Error"),
            598 => String::from_str("Network Read Timeout Error"),
            _ => String::new(),
        }
    }

    /// The display form `<code> <reason>`; for a code outside the table
    /// the reason is empty, leaving a trailing space.
    pub fn status_text(&self) -> (r: String)
        ensures
            r@ == dec_str(self.0 as nat) + seq![' '] + reason_phrase(self.0 as nat),
    {
        proof {
            reveal_strlit(" ");
            assert(" "@ =~= seq![' ']);
        }
        let mut s = crate::text_exec::dec_render(self.0);
        s.append(" ");
        let name = self.get_name();
        s.append(name.as_str());
        s
    }
}

/// No reason phrase contains a carriage return, so a status line never
/// breaks the CR-LF framing of the message head.
pub proof fn lemma_reason_phrase_no_cr(c: nat)
    ensures
        forall|i: int|
            0 <= i < reason_phrase(c).len() ==> #[trigger] reason_phrase(c)[i] != '\r',
        forall|i: int|
            0 <= i < reason_phrase(c).len() ==> #[trigger] reason_phrase(c)[i] != '\n',
{
    reveal_strlit("Continue");
    reveal_strlit("Switching Protocols");
    reveal_strlit("Processing");
    reveal_strlit("Early Hints");
    reveal_strlit("OK");
    reveal_strlit("Created");
    reveal_strlit("Accepted");
    reveal_strlit("Non-Authoritative Information");
    reveal_strlit("No Content");
    reveal_strlit("Reset Content");
    reveal_strlit("Partial Content");
    reveal_strlit("Multi-Status");
    reveal_strlit("Already Reported");
    reveal_strlit("This is fine");
    reveal_strlit("IM Used");
    reveal_strlit("Multiple Choices");
    reveal_strlit("Moved Permanently");
    reveal_strlit("Found");
    reveal_strlit("See Other");
    reveal_strlit("Not Modified");
    reveal_strlit("Use Proxy");
    reveal_strlit("Switch Proxy");
    reveal_strlit("Temporary Redirect");
    reveal_strlit("Permanent Redirect");
    reveal_strlit("Bad Request");
    reveal_strlit("Unauthorized");
    reveal_strlit("Payment Required");
    reveal_strlit("Forbidden");
    reveal_strlit("Not Found");
    reveal_strlit("Method Not Allowed");
    reveal_strlit("Not Acceptable");
    reveal_strlit("Proxy Authentication Required");
    reveal_strlit("Request Timeout");
    reveal_strlit("Conflict");
    reveal_strlit("Gone");
    reveal_strlit("Length Required");
    reveal_strlit("Precondition Failed");
    reveal_strlit("Content Too Large");
    reveal_strlit("URI Too Long");
    reveal_strlit("Unsupported Media Type");
    reveal_strlit("Range Not Satisfiable");
    reveal_strlit("Expectation Failed");
    reveal_strlit("I'm a teapot");
    reveal_strlit("Misdirected Request");
    reveal_strlit("Unprocessable Content");
    reveal_strlit("Locked");
    reveal_strlit("Failed Dependency");
    reveal_strlit("Too Early");
    reveal_strlit("Upgrade Required");
    reveal_strlit("Precondition Required");
    reveal_strlit("Too Many Requests");
    reveal_strlit("Request Header Fields Too Large");
    reveal_strlit("Login Time-out");
    reveal_strlit("Connection Closed Without Response");
    reveal_strlit("Retry With");
    reveal_strlit("Blocked by Windows Parental Controls");
    reveal_strlit("Unavailable For Legal Reasons");
    reveal_strlit("Request Header Too Large");
    reveal_strlit("SSL Certificate Error");
    reveal_strlit("SSL Certificate Required");
    reveal_strlit("HTTP Request Sent to HTTPS Port");
    reveal_strlit("Client Closed Request");
    reveal_strlit("Internal Server Error");
    reveal_strlit("Not Implemented");
    reveal_strlit("Bad Gateway");
    reveal_strlit("Service Unavailable");
    reveal_strlit("Gateway Timeout");
    reveal_strlit("HTTP Version Not Supported");
    reveal_strlit("Variant Also Negotiates");
    reveal_strlit("Insufficient Storage");
    reveal_strlit("Loop Detected");
    reveal_strlit("Bandwidth Limit Exceeded");
    reveal_strlit("Not Extended");
    reveal_strlit("Network Authentication Required");
    reveal_strlit("Unknown Error");
    reveal_strlit("Web Server Is Down");
    reveal_strlit("Connection Timed Out");
    reveal_strlit("Origin Is Unreachable");
    reveal_strlit("A Timeout Occurred");
    reveal_strlit("SSL Handshake Failed");
    reveal_strlit("Invalid SSL Certificate");
    reveal_strlit("Railgun Listener to Origin Error");
    reveal_strlit("Origin DNS Error");
    reveal_strlit("Network Read Timeout Error");
}

} // verus!
