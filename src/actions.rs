//! Actions that an assistant may ask the site to perform, and the text that
//! describes them to it.
use vstd::prelude::*;

verus! {

broadcast use vstd::string::group_string_axioms;

/// What the redirect action does, and how to ask for it.
pub const REDIRECT_DESCRIPTION: &'static str = r#""This action let you redirect user to another page"
                                 "There are the folllowing paths available:"
                                 "'pages/resume' - page represent resume(CV) of Nikolai Zhdanov"
                                 ""
                                 "The input should be an object with a path key"
                                 "Example: { "path": "pages/resume" }""#;

/// The actions on offer.
pub struct Actions {
    actions: Vec<ActionDefinition>,
}

/// An action's name and what it does.
pub struct ActionDefinition {
    pub name: String,
    pub description: String,
}

/// A request to send the user to another page.
#[derive(Debug, Clone, PartialEq, Eq)]
pub struct RedirectAction {
    pub path: String,
}

/// An action that an assistant asked for.
#[derive(Debug, Clone, PartialEq, Eq)]
pub enum Action {
    Redirect(RedirectAction),
}

/// Reads the actions that an assistant's answer asks for.
pub struct ActionOutputParser {}

impl ActionOutputParser {
    pub fn new() -> (r: Self) {
        Self {  }
    }
}

/// The block that introduces one action.
pub open spec fn instruction_of(a: ActionDefinition) -> Seq<char> {
    "ACTION: "@ + a.name@ + "\n"@ + a.description@ + "\n-----------\n"@
}

/// The blocks of the first `n` actions, in order.
pub open spec fn instructions_of(v: Seq<ActionDefinition>, n: int) -> Seq<char>
    decreases n,
{
    if n <= 0 {
        Seq::empty()
    } else {
        instructions_of(v, n - 1) + instruction_of(v[n - 1])
    }
}

impl Actions {
    pub closed spec fn definitions(&self) -> Seq<ActionDefinition> {
        self.actions@
    }

    /// The one action on offer: a redirect.
    pub fn new() -> (r: Self)
        ensures
            r.definitions().len() == 1,
            r.definitions()[0].name@ == "Redirect"@,
            r.definitions()[0].description@ == REDIRECT_DESCRIPTION@,
    {
        Self {
            actions: vec![
                ActionDefinition {
                    name: String::from_str("Redirect"),
                    description: String::from_str(REDIRECT_DESCRIPTION),
                },
            ],
        }
    }

    pub fn get_actions(&self) -> (r: &Vec<ActionDefinition>)
        ensures
            r@ == self.definitions(),
    {
        &self.actions
    }

    /// One block per action: `ACTION: <name>`, the description, and a rule.
    pub fn to_instructions(&self) -> (r: String)
        ensures
            r@ == instructions_of(self.definitions(), self.definitions().len() as int),
    {
        let mut instructions = String::new();
        let mut i: usize = 0;
        while i < self.actions.len()
            invariant
                i <= self.actions@.len(),
                instructions@ == instructions_of(self.actions@, i as int),
            decreases self.actions@.len() - i,
        {
            let action = &self.actions[i];
            let ghost before = instructions@;
            instructions.append("ACTION: ");
            instructions.append(action.name.as_str());
            instructions.append("\n");
            instructions.append(action.description.as_str());
            instructions.append("\n-----------\n");
            assert(instructions@ =~= before + instruction_of(self.actions@[i as int]));
            i = i + 1;
        }
        instructions
    }
}

} // verus!
