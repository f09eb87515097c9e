//! The tool's configuration: a global file under the user's
//! configuration directory and an optional workspace file, merged with
//! the workspace taking precedence.  Reading and writing the files is
//! the surrounding program's business; the merge discipline lives here.

use vstd::prelude::*;
use vstd::string::StringExecFns;

verus! {

/// The configuration both files carry.
pub struct Config {
    pub default_status: Option<String>,
    pub default_tags: Option<Vec<String>>,
    pub editor: Option<String>,
    pub username: Option<String>,
    pub base_url: String,
}

/// The address the tool talks to unless a file names another.
pub fn default_base_url() -> (r: String)
    ensures
        r@ == "https://note.com"@,
{
    String::from_str("https://note.com")
}

impl Default for Config {
    /// A fresh configuration: drafts by default, the standard address,
    /// nothing else set.
    fn default() -> (r: Config)
        ensures
            r.default_status matches Some(s) && s@ == "draft"@,
            r.default_tags is None,
            r.editor is None,
            r.username is None,
            r.base_url@ == "https://note.com"@,
    {
        Config {
            default_status: Some(String::from_str("draft")),
            default_tags: None,
            editor: None,
            username: None,
            base_url: default_base_url(),
        }
    }
}

impl Config {
    /// Merges two configurations, the other taking precedence: each
    /// optional field keeps the other's value when set; the address is
    /// taken from the other only when it differs from the default.
    pub fn merge(self, other: Config) -> (r: Config)
        ensures
            r.default_status == (if other.default_status is Some {
                other.default_status
            } else {
                self.default_status
            }),
            r.default_tags == (if other.default_tags is Some {
                other.default_tags
            } else {
                self.default_tags
            }),
            r.editor == (if other.editor is Some {
                other.editor
            } else {
                self.editor
            }),
            r.username == (if other.username is Some {
                other.username
            } else {
                self.username
            }),
            r.base_url@ == (if other.base_url@ != "https://note.com"@ {
                other.base_url@
            } else {
                self.base_url@
            }),
    {
        let base_url = if !crate::text::str_eq(other.base_url.as_str(), "https://note.com") {
            other.base_url
        } else {
            self.base_url
        };
        Config {
            default_status: match other.default_status {
                Option::Some(s) => Some(s),
                Option::None => self.default_status,
            },
            default_tags: match other.default_tags {
                Option::Some(t) => Some(t),
                Option::None => self.default_tags,
            },
            editor: match other.editor {
                Option::Some(e) => Some(e),
                Option::None => self.editor,
            },
            username: match other.username {
                Option::Some(u) => Some(u),
                Option::None => self.username,
            },
            base_url,
        }
    }

    /// The effective configuration: the global one, with the workspace
    /// one merged over it when a workspace file was found.
    pub fn load(global: Config, workspace: Option<Config>) -> (r: Config)
        ensures
            workspace is None ==> r == global,
            workspace matches Some(w) ==> {
                &&& r.default_status == (if w.default_status is Some {
                    w.default_status
                } else {
                    global.default_status
                })
                &&& r.default_tags == (if w.default_tags is Some {
                    w.default_tags
                } else {
                    global.default_tags
                })
                &&& r.editor == (if w.editor is Some {
                    w.editor
                } else {
                    global.editor
                })
                &&& r.username == (if w.username is Some {
                    w.username
                } else {
                    global.username
                })
                &&& r.base_url@ == (if w.base_url@ != "https://note.com"@ {
                    w.base_url@
                } else {
                    global.base_url@
                })
            },
    {
        match workspace {
            Option::Some(w) => global.merge(w),
            Option::None => global,
        }
    }
}

} // verus!