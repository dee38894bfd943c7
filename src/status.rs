use vstd::prelude::*;

verus! {

/// The response statuses, each with its wire text.
#[derive(PartialEq, Eq, Copy, Clone, Debug)]
pub enum Status {
    OK,
    NotFound,
}

/// The wire text of a status.
pub open spec fn status_text(s: Status) -> Seq<char> {
    match s {
        Status::OK => seq!['2', '0', '0', ' ', 'O', 'K'],
        Status::NotFound => seq!['4', '0', '4', ' ', 'N', 'O', 'T', ' ', 'F', 'O', 'U', 'N', 'D'],
    }
}

impl Status {
    pub fn to_status(&self) -> (r: &'static str)
        ensures
            r@ == status_text(*self),
    {
        match self {
            Status::OK => {
                proof {
                    reveal_strlit("200 OK");
                }
                "200 OK"
            },
            Status::NotFound => {
                proof {
                    reveal_strlit("404 NOT FOUND");
                }
                "404 NOT FOUND"
            },
        }
    }
}

} // verus!
