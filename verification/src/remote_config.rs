//! Where a calendar lives in Proton: the account and the calendar ID, kept in
//! caldir's remote configuration parameters.
use vstd::prelude::*;

use crate::text::{chars_equal, chars_of, extend_str, string_of};

verus! {

/// A value of a remote configuration parameter: a text, or any other value.
#[derive(Debug, Clone)]
pub enum ParamValue {
    Text(String),
    Other,
}

/// The text of a parameter value, if it is one.
pub open spec fn value_text(v: ParamValue) -> Option<Seq<char>> {
    match v {
        ParamValue::Text(s) => Some(s@),
        ParamValue::Other => None,
    }
}

/// One parameter: its name and its text (`None` for a value that is not a
/// text).
pub type Param = (Seq<char>, Option<Seq<char>>);

/// Remote configuration parameters: named values, each name at most once.
#[derive(Debug, Clone)]
pub struct ConfigParams {
    entries: Vec<(String, ParamValue)>,
}

/// Sets a parameter: replaces the value of that name, or adds the parameter
/// at the end.
pub open spec fn set_param(ps: Seq<Param>, name: Seq<char>, v: Option<Seq<char>>) -> Seq<Param>
    decreases ps.len(),
{
    if ps.len() == 0 {
        seq![(name, v)]
    } else if ps[0].0 == name {
        seq![(name, v)] + ps.skip(1)
    } else {
        seq![ps[0]] + set_param(ps.skip(1), name, v)
    }
}

/// The text of the parameter of that name; `None` when there is no such
/// parameter or its value is not a text.
pub open spec fn param_text(ps: Seq<Param>, name: Seq<char>) -> Option<Seq<char>>
    decreases ps.len(),
{
    if ps.len() == 0 {
        None
    } else if ps[0].0 == name {
        ps[0].1
    } else {
        param_text(ps.skip(1), name)
    }
}

/// After setting, the name reads as the value set, and every other name as
/// before.
pub proof fn lemma_set_param_reads_back(
    ps: Seq<Param>,
    name: Seq<char>,
    v: Option<Seq<char>>,
    other: Seq<char>,
)
    ensures
        param_text(set_param(ps, name, v), name) == v,
        other != name ==> param_text(set_param(ps, name, v), other) == param_text(ps, other),
    decreases ps.len(),
{
    let r = set_param(ps, name, v);
    if ps.len() == 0 {
        assert(r.skip(1) =~= Seq::<Param>::empty());
        assert(param_text(r.skip(1), other) is None);
    } else if ps[0].0 == name {
        assert(r.skip(1) =~= ps.skip(1));
        if other != name {
            assert(param_text(r, other) == param_text(r.skip(1), other));
            assert(param_text(ps, other) == param_text(ps.skip(1), other));
        }
    } else {
        lemma_set_param_reads_back(ps.skip(1), name, v, other);
        assert(r.skip(1) =~= set_param(ps.skip(1), name, v));
        assert(r[0] == ps[0]);
        if other != name {
            if ps[0].0 == other {
                assert(param_text(r, other) == ps[0].1);
            } else {
                assert(param_text(r, other) == param_text(r.skip(1), other));
            }
        }
    }
}

impl ConfigParams {
    /// The parameters, in order.
    pub closed spec fn view(&self) -> Seq<Param> {
        self.entries@.map_values(|e: (String, ParamValue)| (e.0@, value_text(e.1)))
    }

    /// No parameters.
    pub fn new() -> (r: ConfigParams)
        ensures
            r.view() == Seq::<Param>::empty(),
    {
        let r = ConfigParams { entries: Vec::new() };
        assert(r.view() =~= Seq::<Param>::empty());
        r
    }

    /// Sets the parameter `name` (see [`set_param`]).
    pub fn insert(&mut self, name: String, value: ParamValue)
        ensures
            final(self).view() == set_param(old(self).view(), name@, value_text(value)),
    {
        let ghost ps = self.view();
        let ghost v = value_text(value);
        let key = chars_of(name.as_str());
        let mut i: usize = 0;
        while i < self.entries.len()
            invariant
                i <= self.entries.len(),
                ps == self.view(),
                ps == old(self).view(),
                v == value_text(value),
                key@ == name@,
                forall|j: int| 0 <= j < i ==> ps[j].0 != name@,
            decreases self.entries.len() - i,
        {
            let other = chars_of(self.entries[i].0.as_str());
            assert(ps[i as int].0 == other@);
            if chars_equal(&other, &key) {
                proof {
                    lemma_set_param_at(ps, name@, v, i as int);
                }
                let ghost nv = name@;
                self.entries.set(i, (name, value));
                assert(self.view()[i as int] == (nv, v));
                assert(self.view() =~= ps.take(i as int) + seq![(nv, v)] + ps.skip(i + 1));
                return;
            }
            i = i + 1;
        }
        proof {
            lemma_set_param_at(ps, name@, v, i as int);
        }
        let ghost nv = name@;
        self.entries.push((name, value));
        assert(self.view()[i as int] == (nv, v));
        assert(self.view() =~= ps.take(i as int) + seq![(nv, v)] + ps.skip(i as int));
    }

    /// The text of the parameter `name` (see [`param_text`]).
    pub fn get_text(&self, name: &str) -> (r: Option<String>)
        ensures
            match r {
                Some(s) => param_text(self.view(), name@) == Some(s@),
                None => param_text(self.view(), name@) is None,
            },
    {
        let key = chars_of(name);
        let ghost ps = self.view();
        let mut i: usize = 0;
        while i < self.entries.len()
            invariant
                i <= self.entries.len(),
                ps == self.view(),
                key@ == name@,
                forall|j: int| 0 <= j < i ==> ps[j].0 != name@,
            decreases self.entries.len() - i,
        {
            let other = chars_of(self.entries[i].0.as_str());
            assert(ps[i as int].0 == other@);
            if chars_equal(&other, &key) {
                proof {
                    lemma_param_text_at(ps, name@, i as int);
                }
                return match &self.entries[i].1 {
                    ParamValue::Text(s) => Some(s.clone()),
                    ParamValue::Other => None,
                };
            }
            i = i + 1;
        }
        proof {
            lemma_param_text_at(ps, name@, i as int);
        }
        None
    }
}

proof fn lemma_set_param_at(ps: Seq<Param>, name: Seq<char>, v: Option<Seq<char>>, i: int)
    requires
        0 <= i <= ps.len(),
        forall|j: int| 0 <= j < i ==> ps[j].0 != name,
        i < ps.len() ==> ps[i].0 == name,
    ensures
        set_param(ps, name, v) == ps.take(i) + seq![(name, v)] + if i < ps.len() {
            ps.skip(i + 1)
        } else {
            ps.skip(i)
        },
    decreases ps.len(),
{
    if i == 0 {
        if ps.len() == 0 {
            assert(seq![(name, v)] =~= ps.take(0) + seq![(name, v)] + ps.skip(0));
        } else {
            assert(seq![(name, v)] + ps.skip(1) =~= ps.take(0) + seq![(name, v)] + ps.skip(1));
        }
    } else {
        lemma_set_param_at(ps.skip(1), name, v, i - 1);
        let tail = ps.skip(1);
        if i < ps.len() {
            assert(seq![ps[0]] + (tail.take(i - 1) + seq![(name, v)] + tail.skip(i)) =~= ps.take(i)
                + seq![(name, v)] + ps.skip(i + 1));
        } else {
            assert(seq![ps[0]] + (tail.take(i - 1) + seq![(name, v)] + tail.skip(i - 1)) =~= ps.take(
                i,
            ) + seq![(name, v)] + ps.skip(i));
        }
    }
}

proof fn lemma_param_text_at(ps: Seq<Param>, name: Seq<char>, i: int)
    requires
        0 <= i <= ps.len(),
        forall|j: int| 0 <= j < i ==> ps[j].0 != name,
        i < ps.len() ==> ps[i].0 == name,
    ensures
        param_text(ps, name) == if i < ps.len() {
            ps[i].1
        } else {
            None
        },
    decreases ps.len(),
{
    if i > 0 {
        lemma_param_text_at(ps.skip(1), name, i - 1);
    }
}

/// Where a calendar lives in Proton.
#[derive(Debug, Clone)]
pub struct ProtonRemoteConfig {
    pub proton_account: String,
    pub proton_calendar: String,
}

/// Why remote parameters do not name a Proton calendar.
#[derive(Debug, Clone)]
pub enum RemoteConfigError {
    /// A required parameter is missing or not a text.
    MissingField { name: String },
}

impl RemoteConfigError {
    /// The message the error is reported with: the missing parameter's name
    /// after `Missing required field: `.
    pub fn message(&self) -> (r: String)
        ensures
            r@ == "Missing required field: "@ + self->name@,
    {
        let mut out: Vec<char> = Vec::new();
        match self {
            RemoteConfigError::MissingField { name } => {
                extend_str(&mut out, "Missing required field: ");
                extend_str(&mut out, name.as_str());
            },
        }
        string_of(&out)
    }
}

/// The name of the parameter that holds the account.
pub const ACCOUNT_PARAM: &'static str = "proton_account";

/// The name of the parameter that holds the calendar ID.
pub const CALENDAR_PARAM: &'static str = "proton_calendar";

/// The parameters a Proton calendar is stored as: its account, then its
/// calendar ID.
pub open spec fn params_of(account: Seq<char>, calendar: Seq<char>) -> Seq<Param> {
    set_param(
        set_param(Seq::empty(), ACCOUNT_PARAM@, Some(account)),
        CALENDAR_PARAM@,
        Some(calendar),
    )
}

impl ProtonRemoteConfig {
    /// The configuration of the calendar `calendar` of the account `account`.
    pub fn new(account: &str, calendar: &str) -> (r: ProtonRemoteConfig)
        ensures
            r.proton_account@ == account@,
            r.proton_calendar@ == calendar@,
    {
        ProtonRemoteConfig {
            proton_account: string_of(&chars_of(account)),
            proton_calendar: string_of(&chars_of(calendar)),
        }
    }

    /// The parameters the configuration is stored as (see [`params_of`]).
    pub fn into_remote_config_params(self) -> (r: ConfigParams)
        ensures
            r.view() == params_of(self.proton_account@, self.proton_calendar@),
    {
        let mut params = ConfigParams::new();
        params.insert(string_of(&chars_of(ACCOUNT_PARAM)), ParamValue::Text(self.proton_account));
        params.insert(string_of(&chars_of(CALENDAR_PARAM)), ParamValue::Text(self.proton_calendar));
        params
    }

    /// The configuration the parameters hold: both `proton_account` and
    /// `proton_calendar` must be texts; the account is checked first.
    pub fn try_from(params: &ConfigParams) -> (r: Result<ProtonRemoteConfig, RemoteConfigError>)
        ensures
            match r {
                Ok(c) => param_text(params.view(), ACCOUNT_PARAM@) == Some(c.proton_account@)
                    && param_text(params.view(), CALENDAR_PARAM@) == Some(c.proton_calendar@),
                Err(RemoteConfigError::MissingField { name }) => {
                    ||| param_text(params.view(), ACCOUNT_PARAM@) is None && name@
                        == ACCOUNT_PARAM@
                    ||| param_text(params.view(), ACCOUNT_PARAM@) is Some && param_text(
                        params.view(),
                        CALENDAR_PARAM@,
                    ) is None && name@ == CALENDAR_PARAM@
                },
            },
    {
        let account = match params.get_text(ACCOUNT_PARAM) {
            Some(a) => a,
            None => {
                return Err(
                    RemoteConfigError::MissingField { name: string_of(&chars_of(ACCOUNT_PARAM)) },
                );
            },
        };
        let calendar = match params.get_text(CALENDAR_PARAM) {
            Some(c) => c,
            None => {
                return Err(
                    RemoteConfigError::MissingField { name: string_of(&chars_of(CALENDAR_PARAM)) },
                );
            },
        };
        Ok(ProtonRemoteConfig { proton_account: account, proton_calendar: calendar })
    }
}

/// A configuration read back from the parameters it was stored as is the
/// same configuration.
pub proof fn lemma_remote_config_round_trip(account: Seq<char>, calendar: Seq<char>)
    ensures
        param_text(params_of(account, calendar), ACCOUNT_PARAM@) == Some(account),
        param_text(params_of(account, calendar), CALENDAR_PARAM@) == Some(calendar),
{
    reveal_strlit("proton_account");
    reveal_strlit("proton_calendar");
    let first = set_param(Seq::empty(), ACCOUNT_PARAM@, Some(account));
    lemma_set_param_reads_back(Seq::empty(), ACCOUNT_PARAM@, Some(account), CALENDAR_PARAM@);
    assert(ACCOUNT_PARAM@ != CALENDAR_PARAM@) by {
        assert(ACCOUNT_PARAM@.len() != CALENDAR_PARAM@.len());
    }
    lemma_set_param_reads_back(first, CALENDAR_PARAM@, Some(calendar), ACCOUNT_PARAM@);
}

} // verus!
