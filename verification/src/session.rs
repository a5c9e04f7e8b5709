//! The session state: four (raw, edited) template pairs — system prompt,
//! user prompt, image prompt, speech text — and the current record. After
//! every mutation each edited string is recomputed from its raw
//! counterpart and the current record, so the recompute invariant holds on
//! return from every operation here.

use vstd::prelude::*;

use crate::record::Record;
use crate::template::{spec_substitute_opt, substitute};

verus! {

/// Which raw template a user edit targets, with the new raw text.
#[derive(Debug, PartialEq)]
pub enum AppStateFieldUpdate {
    ChatGPTSystem(String),
    ChatGPTPrompt(String),
    DallE(String),
    ElevenLabs(String),
}

/// The four template pairs and the current record.
#[derive(Debug, PartialEq)]
pub struct AppState {
    pub current_record: Option<Record>,
    pub chat_gpt_system_raw: String,
    pub chat_gpt_system_edited: String,
    pub chat_gpt_prompt_raw: String,
    pub chat_gpt_prompt_edited: String,
    pub dall_e_raw: String,
    pub dall_e_edited: String,
    pub eleven_labs_raw: String,
    pub eleven_labs_edited: String,
}

impl AppState {
    /// The current record's fields, if a record is set.
    pub open spec fn spec_record(self) -> Option<Seq<Seq<char>>> {
        match self.current_record {
            Some(r) => Some(r@),
            None => None,
        }
    }

    /// The recompute invariant: every edited string is the substitution of
    /// its raw counterpart under the current record.
    pub open spec fn recomputed(self) -> bool {
        &&& self.chat_gpt_system_edited@ == spec_substitute_opt(
            self.chat_gpt_system_raw@,
            self.spec_record(),
        )
        &&& self.chat_gpt_prompt_edited@ == spec_substitute_opt(
            self.chat_gpt_prompt_raw@,
            self.spec_record(),
        )
        &&& self.dall_e_edited@ == spec_substitute_opt(self.dall_e_raw@, self.spec_record())
        &&& self.eleven_labs_edited@ == spec_substitute_opt(
            self.eleven_labs_raw@,
            self.spec_record(),
        )
    }

    /// The raw strings, as a tuple, for stating what an update leaves
    /// alone.
    pub open spec fn spec_raws(self) -> (Seq<char>, Seq<char>, Seq<char>, Seq<char>) {
        (
            self.chat_gpt_system_raw@,
            self.chat_gpt_prompt_raw@,
            self.dall_e_raw@,
            self.eleven_labs_raw@,
        )
    }

    /// The raw strings after applying `update` to `self`.
    pub open spec fn spec_raws_after(self, update: AppStateFieldUpdate) -> (
        Seq<char>,
        Seq<char>,
        Seq<char>,
        Seq<char>,
    ) {
        match update {
            AppStateFieldUpdate::ChatGPTSystem(s) => (
                s@,
                self.chat_gpt_prompt_raw@,
                self.dall_e_raw@,
                self.eleven_labs_raw@,
            ),
            AppStateFieldUpdate::ChatGPTPrompt(s) => (
                self.chat_gpt_system_raw@,
                s@,
                self.dall_e_raw@,
                self.eleven_labs_raw@,
            ),
            AppStateFieldUpdate::DallE(s) => (
                self.chat_gpt_system_raw@,
                self.chat_gpt_prompt_raw@,
                s@,
                self.eleven_labs_raw@,
            ),
            AppStateFieldUpdate::ElevenLabs(s) => (
                self.chat_gpt_system_raw@,
                self.chat_gpt_prompt_raw@,
                self.dall_e_raw@,
                s@,
            ),
        }
    }

    /// Store a new raw template, then recompute every edited string from
    /// the raws and the unchanged current record.
    pub fn update_field(&mut self, update: AppStateFieldUpdate)
        ensures
            final(self).spec_raws() == old(self).spec_raws_after(update),
            final(self).spec_record() == old(self).spec_record(),
            final(self).recomputed(),
    {
        match update {
            AppStateFieldUpdate::ChatGPTSystem(s) => self.chat_gpt_system_raw = s,
            AppStateFieldUpdate::ChatGPTPrompt(s) => self.chat_gpt_prompt_raw = s,
            AppStateFieldUpdate::DallE(s) => self.dall_e_raw = s,
            AppStateFieldUpdate::ElevenLabs(s) => self.eleven_labs_raw = s,
        }
        self.recompute();
    }

    /// Make `record` current, then recompute every edited string from the
    /// unchanged raws and the new record.
    pub fn update_current_record(&mut self, record: Record)
        ensures
            final(self).spec_raws() == old(self).spec_raws(),
            final(self).spec_record() == Some(record@),
            final(self).recomputed(),
    {
        self.current_record = Some(record);
        self.recompute();
    }

    /// Restore the recompute invariant from the raws and the current
    /// record.
    fn recompute(&mut self)
        ensures
            final(self).spec_raws() == old(self).spec_raws(),
            final(self).spec_record() == old(self).spec_record(),
            final(self).recomputed(),
    {
        let rec: Option<&Record> = match &self.current_record {
            Some(r) => Some(r),
            None => None,
        };
        let system = substitute(&self.chat_gpt_system_raw, rec);
        let prompt = substitute(&self.chat_gpt_prompt_raw, rec);
        let dall_e = substitute(&self.dall_e_raw, rec);
        let eleven = substitute(&self.eleven_labs_raw, rec);
        self.chat_gpt_system_edited = system;
        self.chat_gpt_prompt_edited = prompt;
        self.dall_e_edited = dall_e;
        self.eleven_labs_edited = eleven;
    }
}

impl Default for AppState {
    /// The session starts with empty strings and no record; the recompute
    /// invariant holds from the start.
    fn default() -> (s: AppState)
        ensures
            s.spec_record() == None::<Seq<Seq<char>>>,
            s.spec_raws() == (
                Seq::<char>::empty(),
                Seq::<char>::empty(),
                Seq::<char>::empty(),
                Seq::<char>::empty(),
            ),
            s.recomputed(),
    {
        AppState {
            current_record: None,
            chat_gpt_system_raw: String::new(),
            chat_gpt_system_edited: String::new(),
            chat_gpt_prompt_raw: String::new(),
            chat_gpt_prompt_edited: String::new(),
            dall_e_raw: String::new(),
            dall_e_edited: String::new(),
            eleven_labs_raw: String::new(),
            eleven_labs_edited: String::new(),
        }
    }
}

} // verus!
