//! The language levels that output can be written for.

use crate::error::ConfigError;
use crate::text::text_eq;
use vstd::prelude::*;

verus! {

/// A language level of the output.
#[derive(Clone, Copy, Debug, PartialEq, Eq, Structural)]
pub enum Target {
    Es3,
    Es5,
    Es2015,
    Es2016,
    Es2017,
    Es2018,
    Es2019,
    Es2020,
}

impl Target {
    /// The name by which a request asks for this level.
    pub open spec fn name_text(self) -> Seq<char> {
        match self {
            Target::Es3 => "ES3"@,
            Target::Es5 => "ES5"@,
            Target::Es2015 => "ES2015"@,
            Target::Es2016 => "ES2016"@,
            Target::Es2017 => "ES2017"@,
            Target::Es2018 => "ES2018"@,
            Target::Es2019 => "ES2019"@,
            Target::Es2020 => "ES2020"@,
        }
    }

    /// The same name in lower case, which a request may use as well.
    pub open spec fn lower_name_text(self) -> Seq<char> {
        match self {
            Target::Es3 => "es3"@,
            Target::Es5 => "es5"@,
            Target::Es2015 => "es2015"@,
            Target::Es2016 => "es2016"@,
            Target::Es2017 => "es2017"@,
            Target::Es2018 => "es2018"@,
            Target::Es2019 => "es2019"@,
            Target::Es2020 => "es2020"@,
        }
    }

    /// Whether `name` asks for this level.
    pub open spec fn is_named(self, name: Seq<char>) -> bool {
        name == self.name_text() || name == self.lower_name_text()
    }

    /// The level that `name` asks for, if it is a supported one.
    pub open spec fn named(name: Seq<char>) -> Option<Target> {
        if Target::Es3.is_named(name) {
            Some(Target::Es3)
        } else if Target::Es5.is_named(name) {
            Some(Target::Es5)
        } else if Target::Es2015.is_named(name) {
            Some(Target::Es2015)
        } else if Target::Es2016.is_named(name) {
            Some(Target::Es2016)
        } else if Target::Es2017.is_named(name) {
            Some(Target::Es2017)
        } else if Target::Es2018.is_named(name) {
            Some(Target::Es2018)
        } else if Target::Es2019.is_named(name) {
            Some(Target::Es2019)
        } else if Target::Es2020.is_named(name) {
            Some(Target::Es2020)
        } else {
            None
        }
    }

    /// The name by which a request asks for this level.
    pub fn name(&self) -> (text: String)
        ensures
            text@ == self.name_text(),
    {
        match self {
            Target::Es3 => String::from_str("ES3"),
            Target::Es5 => String::from_str("ES5"),
            Target::Es2015 => String::from_str("ES2015"),
            Target::Es2016 => String::from_str("ES2016"),
            Target::Es2017 => String::from_str("ES2017"),
            Target::Es2018 => String::from_str("ES2018"),
            Target::Es2019 => String::from_str("ES2019"),
            Target::Es2020 => String::from_str("ES2020"),
        }
    }

    fn answers_to(self, name: &str) -> (r: bool)
        ensures
            r == self.is_named(name@),
    {
        let upper = self.name();
        let lower = match self {
            Target::Es3 => "es3",
            Target::Es5 => "es5",
            Target::Es2015 => "es2015",
            Target::Es2016 => "es2016",
            Target::Es2017 => "es2017",
            Target::Es2018 => "es2018",
            Target::Es2019 => "es2019",
            Target::Es2020 => "es2020",
        };
        text_eq(name, upper.as_str()) || text_eq(name, lower)
    }

    /// The level that `name` asks for. A name that asks for none of the
    /// supported levels is an error in the configuration.
    pub fn from_name(name: &str) -> (r: Result<Target, ConfigError>)
        ensures
            r == match Target::named(name@) {
                Some(target) => Ok::<Target, ConfigError>(target),
                None => Err(ConfigError::UnsupportedTarget),
            },
    {
        if Target::Es3.answers_to(name) {
            Ok(Target::Es3)
        } else if Target::Es5.answers_to(name) {
            Ok(Target::Es5)
        } else if Target::Es2015.answers_to(name) {
            Ok(Target::Es2015)
        } else if Target::Es2016.answers_to(name) {
            Ok(Target::Es2016)
        } else if Target::Es2017.answers_to(name) {
            Ok(Target::Es2017)
        } else if Target::Es2018.answers_to(name) {
            Ok(Target::Es2018)
        } else if Target::Es2019.answers_to(name) {
            Ok(Target::Es2019)
        } else if Target::Es2020.answers_to(name) {
            Ok(Target::Es2020)
        } else {
            Err(ConfigError::UnsupportedTarget)
        }
    }
}

/// Each level is the one that its own name asks for, in either case.
pub proof fn law_name_asks_for_its_level(target: Target)
    ensures
        Target::named(target.name_text()) == Some(target),
        Target::named(target.lower_name_text()) == Some(target),
{
    reveal_strlit("ES3");
    reveal_strlit("ES5");
    reveal_strlit("ES2015");
    reveal_strlit("ES2016");
    reveal_strlit("ES2017");
    reveal_strlit("ES2018");
    reveal_strlit("ES2019");
    reveal_strlit("ES2020");
    reveal_strlit("es3");
    reveal_strlit("es5");
    reveal_strlit("es2015");
    reveal_strlit("es2016");
    reveal_strlit("es2017");
    reveal_strlit("es2018");
    reveal_strlit("es2019");
    reveal_strlit("es2020");
    let upper = target.name_text();
    let lower = target.lower_name_text();
    assert(upper.len() >= 3 && lower.len() >= 3);
    assert(upper[0] == 'E' && lower[0] == 'e');
    if upper.len() == 3 {
        assert(upper[2] == lower[2]);
    } else {
        assert(upper[5] == lower[5]);
    }
}

} // verus!
