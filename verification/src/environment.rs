//! What the machine tells the program: the home directory and the variables.
use vstd::prelude::*;

use crate::text;

verus! {

/// A variable of the environment. `value` holds what reading it gives: its text,
/// or why that cannot be had.
#[derive(Debug)]
pub struct Variable {
    pub name: String,
    pub value: Result<String, String>,
}

/// The machine's home directory, where one is known, and its variables.
#[derive(Debug)]
pub struct Environment {
    pub home: Option<String>,
    pub vars: Vec<Variable>,
}

pub open spec fn outcome(r: Result<String, String>) -> Result<Seq<char>, Seq<char>> {
    match r {
        Ok(s) => Ok(s@),
        Err(e) => Err(e@),
    }
}

impl View for Variable {
    type V = (Seq<char>, Result<Seq<char>, Seq<char>>);

    open spec fn view(&self) -> (Seq<char>, Result<Seq<char>, Seq<char>>) {
        (self.name@, outcome(self.value))
    }
}

pub ghost struct EnvironmentView {
    pub home: Option<Seq<char>>,
    pub vars: Seq<(Seq<char>, Result<Seq<char>, Seq<char>>)>,
}

impl View for Environment {
    type V = EnvironmentView;

    open spec fn view(&self) -> EnvironmentView {
        EnvironmentView { home: text::opt(self.home), vars: text::views(self.vars@) }
    }
}

/// What reading the variable called `name` gives: the first of that name counts.
pub open spec fn looked_up(
    vars: Seq<(Seq<char>, Result<Seq<char>, Seq<char>>)>,
    name: Seq<char>,
) -> Result<Seq<char>, Seq<char>>
    decreases vars.len(),
{
    if vars.len() == 0 {
        Err("environment variable not found"@)
    } else if vars[0].0 == name {
        vars[0].1
    } else {
        looked_up(vars.drop_first(), name)
    }
}

impl Environment {
    /// The variable called `name`; a value that is had is never left out.
    pub fn var(&self, name: &str) -> (r: Result<Option<String>, String>)
        ensures
            match r {
                Ok(v) => v is Some && looked_up(self@.vars, name@) == Ok::<_, Seq<char>>(v->0@),
                Err(e) => looked_up(self@.vars, name@) == Err::<Seq<char>, _>(e@),
            },
    {
        let ghost all = self@.vars;
        let mut i: usize = 0;
        assert(all.skip(0) =~= all);
        while i < self.vars.len()
            invariant
                i <= self.vars@.len(),
                all == text::views(self.vars@),
                looked_up(all, name@) == looked_up(all.skip(i as int), name@),
            decreases self.vars@.len() - i,
        {
            assert(all.skip(i as int)[0] == self.vars@[i as int]@);
            if text::same(self.vars[i].name.as_str(), name) {
                return match &self.vars[i].value {
                    Ok(v) => Ok(Some(v.clone())),
                    Err(e) => Err(e.clone()),
                };
            }
            assert(all.skip(i as int).drop_first() =~= all.skip(i + 1));
            i = i + 1;
        }
        Err("environment variable not found".to_owned())
    }

    /// The home directory, where one is known.
    pub fn home_dir(&self) -> (r: Option<&str>)
        ensures
            text::opt_str(r) == self@.home,
    {
        match &self.home {
            Some(h) => Some(h.as_str()),
            None => None,
        }
    }
}

/// A variable has the value that it was given; of several that have one name, the first
/// counts.
pub proof fn law_variables_have_their_values(
    vars: Seq<(Seq<char>, Result<Seq<char>, Seq<char>>)>,
    i: int,
)
    requires
        0 <= i < vars.len(),
        forall|j: int| 0 <= j < i ==> (#[trigger] vars[j]).0 != vars[i].0,
    ensures
        looked_up(vars, vars[i].0) == vars[i].1,
    decreases vars.len(),
{
    if i > 0 {
        assert(vars[0].0 != vars[i].0);
        let rest = vars.drop_first();
        assert(rest[i - 1] == vars[i]);
        assert forall|j: int| 0 <= j < i - 1 implies (#[trigger] rest[j]).0 != rest[i - 1].0 by {
            assert(rest[j] == vars[j + 1]);
        }
        law_variables_have_their_values(rest, i - 1);
    }
}

/// A variable that was not given cannot be had.
pub proof fn law_other_variables_are_missing(
    vars: Seq<(Seq<char>, Result<Seq<char>, Seq<char>>)>,
    name: Seq<char>,
)
    requires
        forall|j: int| 0 <= j < vars.len() ==> (#[trigger] vars[j]).0 != name,
    ensures
        looked_up(vars, name) is Err,
    decreases vars.len(),
{
    if vars.len() > 0 {
        assert(vars[0].0 != name);
        let rest = vars.drop_first();
        assert forall|j: int| 0 <= j < rest.len() implies (#[trigger] rest[j]).0 != name by {
            assert(rest[j] == vars[j + 1]);
        }
        law_other_variables_are_missing(rest, name);
    }
}

} // verus!
