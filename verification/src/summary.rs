//! How the market summary finds its retrospective text: the fresh cache, a
//! newly generated text, or one of the fallbacks, in that order.

use vstd::prelude::*;

verus! {

/// Where the fuel prices for the retrospective prompt came from.
#[derive(Clone, Copy, Debug, PartialEq, Eq, Structural)]
pub enum FuelLookup {
    /// The caller already had them.
    Given,
    /// Read from the database's cached fuels response.
    FromDatabase,
    /// The database held a fuels response that does not parse.
    Unreadable,
    /// The database held none, or could not be read.
    Missing,
    /// There is no database.
    NoDatabase,
}

/// A step of producing the retrospective; each step but the last two names
/// the outside work to do next.
#[derive(Debug)]
pub enum RetroStep {
    /// Look up the fresh cached retrospective.
    LookupFresh,
    /// Check the language-model API key.
    CheckKey,
    /// Look up the expired cached retrospective.
    LookupStale,
    /// Read the last retrospective text from the database.
    LookupDatabase,
    /// Find the fuel prices the prompt needs.
    ResolveFuel,
    /// Ask the language model for a retrospective.
    Generate,
    /// Cache and persist the generated text, then serve it.
    Store { text: String, generated_at: String },
    /// Serve this text.
    Serve { text: String, generated_at: Option<String>, stale: bool },
    /// Nothing to serve: the summary is not to be cached.
    GiveUp,
}

/// What the outside work of a step found.
#[derive(Debug)]
pub enum RetroEvent {
    /// The fresh cache entry's text and generation time, if any.
    Fresh(Option<(String, Option<String>)>),
    /// The configured API key, if any.
    Key(Option<String>),
    /// The expired cache entry's text and generation time, if any.
    Stale(Option<(String, Option<String>)>),
    /// The text stored in the database, if a row was found.
    Database(Option<String>),
    /// Where the fuel prices came from.
    Fuel(FuelLookup),
    /// The generated text and its time, or nothing when generation failed.
    Generated(Option<(String, String)>),
    /// The generated text was cached and persisted.
    Stored,
}

/// The step that follows `step` once `event` has come back; an event that
/// does not answer the step leaves it unchanged.
pub open spec fn next_step(step: RetroStep, event: RetroEvent) -> RetroStep {
    match step {
        RetroStep::LookupFresh => match event {
            RetroEvent::Fresh(Some((text, generated_at))) => RetroStep::Serve { text, generated_at, stale: false },
            RetroEvent::Fresh(None) => RetroStep::CheckKey,
            _ => step,
        },
        RetroStep::CheckKey => match event {
            RetroEvent::Key(key) => {
                if key is Some && key->0@.len() > 0 { RetroStep::ResolveFuel } else { RetroStep::LookupStale }
            },
            _ => step,
        },
        RetroStep::LookupStale => match event {
            RetroEvent::Stale(Some((text, generated_at))) => RetroStep::Serve { text, generated_at, stale: true },
            RetroEvent::Stale(None) => RetroStep::LookupDatabase,
            _ => step,
        },
        RetroStep::LookupDatabase => match event {
            RetroEvent::Database(found) => {
                if found is Some && found->0@.len() > 0 {
                    RetroStep::Serve { text: found->0, generated_at: None, stale: true }
                } else {
                    RetroStep::GiveUp
                }
            },
            _ => step,
        },
        RetroStep::ResolveFuel => match event {
            RetroEvent::Fuel(FuelLookup::Given) => RetroStep::Generate,
            RetroEvent::Fuel(FuelLookup::FromDatabase) => RetroStep::Generate,
            RetroEvent::Fuel(FuelLookup::Unreadable) => RetroStep::LookupDatabase,
            RetroEvent::Fuel(FuelLookup::Missing) => RetroStep::LookupStale,
            RetroEvent::Fuel(FuelLookup::NoDatabase) => RetroStep::GiveUp,
            _ => step,
        },
        RetroStep::Generate => match event {
            RetroEvent::Generated(Some((text, generated_at))) => RetroStep::Store { text, generated_at },
            RetroEvent::Generated(None) => RetroStep::LookupStale,
            _ => step,
        },
        RetroStep::Store { text, generated_at } => match event {
            RetroEvent::Stored => RetroStep::Serve { text, generated_at: Some(generated_at), stale: false },
            _ => RetroStep::Store { text, generated_at },
        },
        RetroStep::Serve { .. } => step,
        RetroStep::GiveUp => step,
    }
}

/// The step after `step` given what its outside work found.
pub fn retro_next(step: RetroStep, event: RetroEvent) -> (r: RetroStep)
    ensures
        r == next_step(step, event),
{
    match step {
        RetroStep::LookupFresh => match event {
            RetroEvent::Fresh(Some((text, generated_at))) => RetroStep::Serve { text, generated_at, stale: false },
            RetroEvent::Fresh(None) => RetroStep::CheckKey,
            _ => RetroStep::LookupFresh,
        },
        RetroStep::CheckKey => match event {
            RetroEvent::Key(key) => {
                let usable = match &key {
                    Some(k) => !k.as_str().is_empty(),
                    None => false,
                };
                if usable { RetroStep::ResolveFuel } else { RetroStep::LookupStale }
            },
            _ => RetroStep::CheckKey,
        },
        RetroStep::LookupStale => match event {
            RetroEvent::Stale(Some((text, generated_at))) => RetroStep::Serve { text, generated_at, stale: true },
            RetroEvent::Stale(None) => RetroStep::LookupDatabase,
            _ => RetroStep::LookupStale,
        },
        RetroStep::LookupDatabase => match event {
            RetroEvent::Database(found) => match found {
                Some(text) => {
                    if text.as_str().is_empty() {
                        RetroStep::GiveUp
                    } else {
                        RetroStep::Serve { text, generated_at: None, stale: true }
                    }
                },
                None => RetroStep::GiveUp,
            },
            _ => RetroStep::LookupDatabase,
        },
        RetroStep::ResolveFuel => match event {
            RetroEvent::Fuel(FuelLookup::Given) => RetroStep::Generate,
            RetroEvent::Fuel(FuelLookup::FromDatabase) => RetroStep::Generate,
            RetroEvent::Fuel(FuelLookup::Unreadable) => RetroStep::LookupDatabase,
            RetroEvent::Fuel(FuelLookup::Missing) => RetroStep::LookupStale,
            RetroEvent::Fuel(FuelLookup::NoDatabase) => RetroStep::GiveUp,
            _ => RetroStep::ResolveFuel,
        },
        RetroStep::Generate => match event {
            RetroEvent::Generated(Some((text, generated_at))) => RetroStep::Store { text, generated_at },
            RetroEvent::Generated(None) => RetroStep::LookupStale,
            _ => RetroStep::Generate,
        },
        RetroStep::Store { text, generated_at } => match event {
            RetroEvent::Stored => RetroStep::Serve { text, generated_at: Some(generated_at), stale: false },
            _ => RetroStep::Store { text, generated_at },
        },
        RetroStep::Serve { text, generated_at, stale } => RetroStep::Serve { text, generated_at, stale },
        RetroStep::GiveUp => RetroStep::GiveUp,
    }
}

/// The step is finished: a text is served or the search gave up.
pub open spec fn is_final(step: RetroStep) -> bool {
    step is Serve || step is GiveUp
}

/// The event answers the step's outside work.
pub open spec fn answers(step: RetroStep, event: RetroEvent) -> bool {
    match step {
        RetroStep::LookupFresh => event is Fresh,
        RetroStep::CheckKey => event is Key,
        RetroStep::LookupStale => event is Stale,
        RetroStep::LookupDatabase => event is Database,
        RetroStep::ResolveFuel => event is Fuel,
        RetroStep::Generate => event is Generated,
        RetroStep::Store { .. } => event is Stored,
        _ => false,
    }
}

/// Upper bound on the steps still to take.
pub open spec fn steps_left(step: RetroStep) -> nat {
    match step {
        RetroStep::LookupFresh => 8,
        RetroStep::CheckKey => 7,
        RetroStep::ResolveFuel => 6,
        RetroStep::Generate => 5,
        RetroStep::Store { .. } => 4,
        RetroStep::LookupStale => 3,
        RetroStep::LookupDatabase => 2,
        RetroStep::Serve { .. } => 0,
        RetroStep::GiveUp => 0,
    }
}

/// Every answered step brings the search closer to its end, so it finishes
/// within eight answers from the first lookup; finished steps stay finished.
pub proof fn law_search_finishes(step: RetroStep, event: RetroEvent)
    ensures
        answers(step, event) ==> steps_left(next_step(step, event)) < steps_left(step),
        is_final(step) ==> next_step(step, event) == step,
        !is_final(step) && !answers(step, event) ==> next_step(step, event) == step,
        steps_left(step) == 0 <==> is_final(step),
{
}

/// A text is served as fresh only when it came from the fresh cache or was
/// just generated and stored; every fallback text is served as stale, and a
/// database text is never empty.
pub proof fn law_fallbacks_are_stale(step: RetroStep, event: RetroEvent)
    requires
        !is_final(step),
    ensures
        next_step(step, event) matches RetroStep::Serve { text, generated_at, stale } ==> {
            &&& !stale ==> (step is LookupFresh || step is Store)
            &&& (step is LookupDatabase ==> stale && text@.len() > 0 && generated_at is None)
            &&& (step is Store ==> generated_at is Some)
        },
{
}

/// A key that cannot be used: none configured, or an empty one.
pub open spec fn unusable_key(key: Option<String>) -> bool {
    key is None || key->0@.len() == 0
}

/// Without a usable API key nothing is generated: a missing key and an
/// empty key lead to the same step, the stale-cache lookup; a usable key
/// goes on to gather the prompt's fuel prices.
pub proof fn law_missing_key_falls_back(a: Option<String>, b: Option<String>)
    ensures
        unusable_key(a) ==> next_step(RetroStep::CheckKey, RetroEvent::Key(a)) is LookupStale,
        unusable_key(a) && unusable_key(b)
            ==> next_step(RetroStep::CheckKey, RetroEvent::Key(a)) == next_step(RetroStep::CheckKey, RetroEvent::Key(b)),
        !unusable_key(a) ==> next_step(RetroStep::CheckKey, RetroEvent::Key(a)) is ResolveFuel,
{
}

/// The search gives up only after the database has been asked for a text,
/// or when there is no database to ask.
pub proof fn law_gives_up_last(step: RetroStep, event: RetroEvent)
    ensures
        next_step(step, event) is GiveUp && !(step is GiveUp) ==> (step is LookupDatabase
            || (step is ResolveFuel && event == RetroEvent::Fuel(FuelLookup::NoDatabase))),
{
}

/// With no fresh text, a usable key and fuel prices at hand, the search
/// asks the language model; what it generates is stored and then served
/// as fresh with its generation time.
pub proof fn law_usable_key_generates(
    key: Option<String>,
    fuel: FuelLookup,
    text: String,
    generated_at: String,
)
    requires
        !unusable_key(key),
        fuel == FuelLookup::Given || fuel == FuelLookup::FromDatabase,
    ensures
        ({
            let s1 = next_step(RetroStep::LookupFresh, RetroEvent::Fresh(None));
            let s2 = next_step(s1, RetroEvent::Key(key));
            let s3 = next_step(s2, RetroEvent::Fuel(fuel));
            let s4 = next_step(s3, RetroEvent::Generated(Some((text, generated_at))));
            let s5 = next_step(s4, RetroEvent::Stored);
            &&& s3 is Generate
            &&& s5 == RetroStep::Serve { text, generated_at: Some(generated_at), stale: false }
        }),
{
}

} // verus!
