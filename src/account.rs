use vstd::prelude::*;
use crate::line::{chars_of, string_of};

verus! {

/// How an account is shown: its display name with the handle beside it, or
/// the handle alone when there is no display name.
#[derive(Debug)]
pub struct Account {
    pub name: String,
    pub opt_name: Option<String>,
}

/// A handle as shown: `@` followed by the handle.
pub open spec fn shown_handle(handle: Seq<char>) -> Seq<char> {
    seq!['@'] + handle
}

impl Account {
    /// An empty display name counts as none.
    pub fn new(display_name: Option<String>, handle: &str) -> (r: Account)
        ensures
            match display_name {
                Some(d) if d@.len() > 0 => r.name@ == d@ && (r.opt_name matches Some(h) && h@
                    == shown_handle(handle@)),
                _ => r.name@ == shown_handle(handle@) && r.opt_name is None,
            },
    {
        let mut shown: Vec<char> = Vec::new();
        shown.push('@');
        let rest = chars_of(handle);
        let mut k: usize = 0;
        while k < rest.len()
            invariant
                k <= rest@.len(),
                shown@ == seq!['@'] + rest@.take(k as int),
            decreases rest@.len() - k,
        {
            shown.push(rest[k]);
            k = k + 1;
            assert(shown@ =~= seq!['@'] + rest@.take(k as int));
        }
        assert(rest@.take(k as int) =~= rest@);
        let handle = string_of(&shown);
        match display_name {
            Some(d) => {
                if d.as_str().is_empty() {
                    Account { name: handle, opt_name: None }
                } else {
                    Account { name: d, opt_name: Some(handle) }
                }
            },
            None => Account { name: handle, opt_name: None },
        }
    }
}

/// Which feed a timeline request reads.
#[derive(Clone, Debug, PartialEq, Eq, Hash)]
pub enum FeedKind {
    Feed(String),
    Timeline,
}

/// The page on show, and for the login page whether a saved session is tried first.
#[derive(Clone, Copy, Debug, PartialEq, Eq, Hash)]
pub enum ViewID {
    Login { resume_session: bool },
    Home,
}

impl ViewID {
    /// The login page, trying a saved session first.
    pub fn new() -> (r: ViewID)
        ensures
            r == (ViewID::Login { resume_session: true }),
    {
        ViewID::Login { resume_session: true }
    }

    /// Whether this is the login page and it tries a saved session first.
    pub fn login_resume_session(&self) -> (r: bool)
        ensures
            r == match *self {
                ViewID::Login { resume_session } => resume_session,
                ViewID::Home => false,
            },
    {
        match self {
            ViewID::Login { resume_session } => *resume_session,
            ViewID::Home => false,
        }
    }
}

} // verus!
