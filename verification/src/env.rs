//! Configuration of the service, read from the environment.
use vstd::prelude::*;

verus! {

/// Configuration of the service.
#[derive(Debug, Clone)]
pub struct Variables {
    pub ollama_host: String,
    pub ollama_port: String,
    pub grpc_address: String,
}

/// The configuration as plain sequences of characters.
pub struct VariablesModel {
    pub ollama_host: Seq<char>,
    pub ollama_port: Seq<char>,
    pub grpc_address: Seq<char>,
}

impl Variables {
    pub open spec fn model(&self) -> VariablesModel {
        VariablesModel {
            ollama_host: self.ollama_host@,
            ollama_port: self.ollama_port@,
            grpc_address: self.grpc_address@,
        }
    }
}

/// The configuration before any environment variable is applied.
pub open spec fn default_variables() -> VariablesModel {
    VariablesModel {
        ollama_host: "http://localhost"@,
        ollama_port: "11434"@,
        grpc_address: "127.0.0.1:50051"@,
    }
}

/// What one environment variable, whose name is already in lower case, does
/// to the configuration: the three known names set their field, any other
/// name leaves the configuration as it is.
pub open spec fn apply_variable(vars: VariablesModel, key: Seq<char>, value: Seq<char>) -> VariablesModel {
    if key == "ollama_host"@ {
        VariablesModel { ollama_host: value, ..vars }
    } else if key == "ollama_port"@ {
        VariablesModel { ollama_port: value, ..vars }
    } else if key == "grpc_server_address"@ {
        VariablesModel { grpc_address: value, ..vars }
    } else {
        vars
    }
}

/// The configuration that a list of environment variables gives, applied in
/// order, each name taken in lower case: a later variable wins over an
/// earlier one of the same name.
pub open spec fn variables_from(pairs: Seq<(Seq<char>, Seq<char>)>) -> VariablesModel
    decreases pairs.len(),
{
    if pairs.len() == 0 {
        default_variables()
    } else {
        let last = pairs.last();
        apply_variable(variables_from(pairs.drop_last()), lowercase_of(last.0), last.1)
    }
}

/// The lower-case form of a string, as `str::to_lowercase` gives it.
pub uninterp spec fn lowercase_of(s: Seq<char>) -> Seq<char>;

/// Calls `str::to_lowercase`. Its result is Unicode case mapping, which
/// depends on the argument alone: the contract names it `lowercase_of`.
#[verifier::external_body]
fn to_lowercase(s: &str) -> (res: String)
    ensures
        res@ == lowercase_of(s@),
{
    s.to_lowercase()
}

/// Compares a string with a literal.
fn same_text(s: &str, literal: &str) -> (res: bool)
    ensures
        res == (s@ == literal@),
{
    let a = String::from_str(s);
    let b = String::from_str(literal);
    a == b
}

impl Default for Variables {
    fn default() -> (res: Self)
        ensures
            res.model() == default_variables(),
    {
        Variables {
            ollama_host: String::from_str("http://localhost"),
            ollama_port: String::from_str("11434"),
            grpc_address: String::from_str("127.0.0.1:50051"),
        }
    }
}

impl Variables {
    /// Applies one environment variable whose name is already in lower case.
    pub fn apply(&mut self, key: &str, value: String)
        ensures
            final(self).model() == apply_variable(old(self).model(), key@, value@),
    {
        if same_text(key, "ollama_host") {
            self.ollama_host = value;
        } else if same_text(key, "ollama_port") {
            self.ollama_port = value;
        } else if same_text(key, "grpc_server_address") {
            self.grpc_address = value;
        }
    }

    /// Builds the configuration from the environment variables, in the order
    /// in which the environment lists them.
    pub fn from_env_pairs(pairs: Vec<(String, String)>) -> (res: Variables)
        ensures
            res.model() == variables_from(pairs@.map_values(|p: (String, String)| (p.0@, p.1@))),
    {
        let ghost views = pairs@.map_values(|p: (String, String)| (p.0@, p.1@));
        let mut vars = Variables::default();
        let mut i: usize = 0;
        while i < pairs.len()
            invariant
                i <= pairs.len(),
                views == pairs@.map_values(|p: (String, String)| (p.0@, p.1@)),
                vars.model() == variables_from(views.take(i as int)),
            decreases pairs.len() - i,
        {
            let key = to_lowercase(pairs[i].0.as_str());
            let value = pairs[i].1.clone();
            vars.apply(key.as_str(), value);
            assert(views.take(i + 1).drop_last() =~= views.take(i as int));
            i = i + 1;
        }
        assert(views.take(pairs.len() as int) =~= views);
        vars
    }
}

/// Whether a lower-case variable name is one that the configuration reads.
pub open spec fn is_known_name(name: Seq<char>) -> bool {
    name == "ollama_host"@ || name == "ollama_port"@ || name == "grpc_server_address"@
}

/// The field of a configuration that a known variable name sets.
pub open spec fn field_named(vars: VariablesModel, name: Seq<char>) -> Seq<char> {
    if name == "ollama_host"@ {
        vars.ollama_host
    } else if name == "ollama_port"@ {
        vars.ollama_port
    } else {
        vars.grpc_address
    }
}

proof fn lemma_names_distinct()
    ensures
        "ollama_host"@ != "ollama_port"@,
        "ollama_host"@ != "grpc_server_address"@,
        "ollama_port"@ != "grpc_server_address"@,
{
    reveal_strlit("ollama_host");
    reveal_strlit("ollama_port");
    reveal_strlit("grpc_server_address");
    assert("ollama_host"@[7] != "ollama_port"@[7]);
    assert("ollama_host"@.len() != "grpc_server_address"@.len());
    assert("ollama_port"@.len() != "grpc_server_address"@.len());
}

/// Each setting of the configuration is read from the environment on its
/// own: it is the value of the last variable whose name, in lower case, is
/// its name, wherever that variable stands among the others; with no such
/// variable it keeps its default.
pub proof fn lemma_setting_is_last_variable(pairs: Seq<(Seq<char>, Seq<char>)>, name: Seq<char>)
    requires
        is_known_name(name),
    ensures
        (forall|i: int| 0 <= i < pairs.len() ==> lowercase_of(#[trigger] pairs[i].0) != name)
            ==> field_named(variables_from(pairs), name) == field_named(default_variables(), name),
        forall|i: int| 0 <= i < pairs.len() && lowercase_of(#[trigger] pairs[i].0) == name
            && (forall|j: int| i < j < pairs.len() ==> lowercase_of(pairs[j].0) != name)
            ==> field_named(variables_from(pairs), name) == pairs[i].1,
    decreases pairs.len(),
{
    lemma_names_distinct();
    if pairs.len() > 0 {
        let init = pairs.drop_last();
        let n = pairs.len() - 1;
        let last = pairs[n];
        lemma_setting_is_last_variable(init, name);
        let before = variables_from(init);
        let after = variables_from(pairs);
        assert(after == apply_variable(before, lowercase_of(last.0), last.1));
        if lowercase_of(last.0) == name {
            assert(field_named(after, name) == last.1);
            assert forall|i: int| 0 <= i < pairs.len() && lowercase_of(#[trigger] pairs[i].0) == name
                && (forall|j: int| i < j < pairs.len() ==> lowercase_of(pairs[j].0) != name)
                implies field_named(after, name) == pairs[i].1 by {
                if i < n {
                    assert(lowercase_of(pairs[n].0) != name);
                }
            }
        } else {
            assert(field_named(after, name) == field_named(before, name));
            if forall|i: int| 0 <= i < pairs.len() ==> lowercase_of(#[trigger] pairs[i].0) != name {
                assert forall|i: int| 0 <= i < init.len() implies lowercase_of(#[trigger] init[i].0) != name by {
                    assert(init[i] == pairs[i]);
                }
            }
            assert forall|i: int| 0 <= i < pairs.len() && lowercase_of(#[trigger] pairs[i].0) == name
                && (forall|j: int| i < j < pairs.len() ==> lowercase_of(pairs[j].0) != name)
                implies field_named(after, name) == pairs[i].1 by {
                assert(i < n);
                assert(init[i] == pairs[i]);
                assert forall|j: int| i < j < init.len() implies lowercase_of(#[trigger] init[j].0) != name by {
                    assert(init[j] == pairs[j]);
                }
            }
        }
    }
}

/// A variable whose name is not one that the configuration reads changes
/// nothing, wherever it stands.
pub proof fn lemma_unknown_variable_ignored(
    p: Seq<(Seq<char>, Seq<char>)>,
    k: Seq<char>,
    v: Seq<char>,
    q: Seq<(Seq<char>, Seq<char>)>,
)
    requires
        !is_known_name(lowercase_of(k)),
    ensures
        variables_from(p.push((k, v)) + q) == variables_from(p + q),
    decreases q.len(),
{
    if q.len() == 0 {
        assert(p.push((k, v)) + q =~= p.push((k, v)));
        assert(p + q =~= p);
        assert(p.push((k, v)).drop_last() =~= p);
    } else {
        let qi = q.drop_last();
        lemma_unknown_variable_ignored(p, k, v, qi);
        assert((p.push((k, v)) + q).drop_last() =~= p.push((k, v)) + qi);
        assert((p + q).drop_last() =~= p + qi);
        assert((p.push((k, v)) + q).last() == q.last());
        assert((p + q).last() == q.last());
    }
}

} // verus!
