use vstd::prelude::*;

verus! {

/// Common values of the Content-Type header.
#[derive(PartialEq, Eq, Copy, Clone, Debug)]
pub enum ContentType {
    Json,
    Html,
}

/// The header value of a content type.
pub open spec fn content_type_text(c: ContentType) -> Seq<char> {
    match c {
        ContentType::Json => seq![
            'a', 'p', 'p', 'l', 'i', 'c', 'a', 't', 'i', 'o', 'n', '/', 'j', 's', 'o', 'n'
        ],
        ContentType::Html => seq!['t', 'e', 'x', 't', '/', 'h', 't', 'm', 'l'],
    }
}

impl ContentType {
    pub fn to_header_value(&self) -> (r: &'static str)
        ensures
            r@ == content_type_text(*self),
    {
        match self {
            ContentType::Json => {
                proof {
                    reveal_strlit("application/json");
                }
                "application/json"
            },
            ContentType::Html => {
                proof {
                    reveal_strlit("text/html");
                }
                "text/html"
            },
        }
    }
}

} // verus!
