//! Validated name newtypes and the declared exposure mapping.

use vstd::prelude::*;
use vstd::string::*;

verus! {

/// A name is usable as a single path segment: non-empty and free of `/`.
pub open spec fn valid_name(s: Seq<char>) -> bool {
    s.len() > 0 && forall|i: int| 0 <= i < s.len() ==> s[i] != '/'
}

fn valid_str(s: &str) -> (r: bool)
    ensures
        r == valid_name(s@),
{
    let n = s.unicode_len();
    if n == 0 {
        return false;
    }
    let mut i: usize = 0;
    while i < n
        invariant
            n == s@.len(),
            i <= n,
            forall|j: int| 0 <= j < i ==> s@[j] != '/',
        decreases n - i,
    {
        if s.get_char(i) == '/' {
            return false;
        }
        i += 1;
    }
    true
}

/// The platform-neutral logical name a user invokes; the platform-specific
/// file name adds a `.bat` suffix on Windows and no suffix elsewhere.
#[derive(Debug)]
pub struct ExposedName {
    pub name: String,
}

impl View for ExposedName {
    type V = Seq<char>;

    open spec fn view(&self) -> Seq<char> {
        self.name@
    }
}

impl ExposedName {
    pub open spec fn wf(&self) -> bool {
        valid_name(self@)
    }

    /// Accepts exactly the strings that are valid as a path segment.
    pub fn from_string(name: String) -> (r: Option<ExposedName>)
        ensures
            match r {
                Some(e) => e@ == name@ && e.wf() && valid_name(name@),
                None => !valid_name(name@),
            },
    {
        if valid_str(name.as_str()) {
            Some(ExposedName { name })
        } else {
            None
        }
    }

    pub fn as_str(&self) -> (r: &str)
        ensures
            r@ == self@,
    {
        self.name.as_str()
    }

    pub fn duplicate(&self) -> (r: ExposedName)
        ensures
            r@ == self@,
    {
        ExposedName { name: self.name.clone() }
    }
}

/// The name of one globally-installed environment, used verbatim as a path
/// segment under the environments root.
#[derive(Debug)]
pub struct EnvironmentName {
    pub name: String,
}

impl View for EnvironmentName {
    type V = Seq<char>;

    open spec fn view(&self) -> Seq<char> {
        self.name@
    }
}

impl EnvironmentName {
    pub open spec fn wf(&self) -> bool {
        valid_name(self@)
    }

    /// Accepts exactly the strings that are valid as a path segment.
    pub fn from_string(name: String) -> (r: Option<EnvironmentName>)
        ensures
            match r {
                Some(e) => e@ == name@ && e.wf() && valid_name(name@),
                None => !valid_name(name@),
            },
    {
        if valid_str(name.as_str()) {
            Some(EnvironmentName { name })
        } else {
            None
        }
    }

    pub fn as_str(&self) -> (r: &str)
        ensures
            r@ == self@,
    {
        self.name.as_str()
    }

    pub fn duplicate(&self) -> (r: EnvironmentName)
        ensures
            r@ == self@,
    {
        EnvironmentName { name: self.name.clone() }
    }
}

/// The character sequences behind a sequence of exposed names.
pub open spec fn views_of_names(s: Seq<ExposedName>) -> Seq<Seq<char>> {
    s.map_values(|e: ExposedName| e@)
}

pub proof fn lemma_name_views_push(s: Seq<ExposedName>, x: ExposedName)
    ensures
        views_of_names(s.push(x)) == views_of_names(s).push(x@),
{
    assert(views_of_names(s.push(x)) =~= views_of_names(s).push(x@));
}

/// A declared pairing of an exposed name with the base name of the
/// environment-internal executable it should invoke.
#[derive(Debug)]
pub struct Mapping {
    pub exposed_name: ExposedName,
    pub executable_name: String,
}

impl Mapping {
    pub fn new(exposed_name: ExposedName, executable_name: String) -> (r: Mapping)
        ensures
            r.exposed_name@ == exposed_name@,
            r.executable_name@ == executable_name@,
    {
        Mapping { exposed_name, executable_name }
    }

    pub fn exposed_name(&self) -> (r: &ExposedName)
        ensures
            r@ == self.exposed_name@,
    {
        &self.exposed_name
    }

    pub fn executable_name(&self) -> (r: &str)
        ensures
            r@ == self.executable_name@,
    {
        self.executable_name.as_str()
    }
}

} // verus!
