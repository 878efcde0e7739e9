use vstd::prelude::*;

verus! {

/// The mathematical value of an [`Action`].
pub struct ActionView {
    pub name: Seq<char>,
    pub commands: Seq<Seq<char>>,
    pub runs_on: Seq<char>,
    pub output: Option<Seq<Seq<char>>>,
}

/// The views of a list of strings.
pub open spec fn strings_view(v: Seq<String>) -> Seq<Seq<char>> {
    v.map_values(|s: String| s@)
}

/// A named, ordered list of shell commands bound to one worker name, with the
/// output it produced once executed.
#[derive(Debug)]
pub struct Action {
    /// Name of this action.
    name: String,
    /// Commands to be executed, in order.
    commands: Vec<String>,
    /// Worker on which this action runs.
    runs_on: String,
    /// Output of this action, once it has run.
    output: Option<Vec<String>>,
}

impl View for Action {
    type V = ActionView;

    closed spec fn view(&self) -> ActionView {
        ActionView {
            name: self.name@,
            commands: strings_view(self.commands@),
            runs_on: self.runs_on@,
            output: match self.output {
                Some(o) => Some(strings_view(o@)),
                None => None,
            },
        }
    }
}

impl Action {
    /// Instantiates a new [Action] that has not run yet.
    pub fn new(name: &str, commands: Vec<String>, runs_on: &str) -> (r: Self)
        ensures
            r@ == (ActionView {
                name: name@,
                commands: strings_view(commands@),
                runs_on: runs_on@,
                output: None,
            }),
    {
        Self {
            name: String::from_str(name),
            commands,
            runs_on: String::from_str(runs_on),
            output: None,
        }
    }

    /// Returns the list of commands of the target [Action].
    pub fn commands(&self) -> (r: &Vec<String>)
        ensures
            strings_view(r@) == self@.commands,
    {
        &self.commands
    }

    /// Returns the output of the target [Action].
    pub fn output(&self) -> (r: &Option<Vec<String>>)
        ensures
            match *r {
                Some(o) => self@.output == Some(strings_view(o@)),
                None => self@.output is None,
            },
    {
        &self.output
    }

    /// Returns the worker on which the target [Action] should run.
    pub fn runs_on(&self) -> (r: &str)
        ensures
            r@ == self@.runs_on,
    {
        self.runs_on.as_str()
    }

    /// Returns the name of the target [Action].
    pub fn name(&self) -> (r: &str)
        ensures
            r@ == self@.name,
    {
        self.name.as_str()
    }

    /// Sets the output of the target [Action].
    pub fn set_output(&mut self, output: Vec<String>)
        ensures
            final(self)@ == (ActionView { output: Some(strings_view(output@)), ..old(self)@ }),
    {
        self.output = Some(output);
    }
}

} // verus!
