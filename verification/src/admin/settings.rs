//! Site settings kept by the admin: bank-transfer details (all four fields
//! required), notification routing, and SMS template bodies by key. What is
//! saved is trimmed as the forms describe; reading gives back what was saved,
//! or empty defaults before the first save.

use vstd::prelude::*;
use crate::table::{lemma_lookup_upsert, lookup, upsert, Table};
use crate::text::{append_str, owned, string_of, trim, trim_str};

verus! {

/// Bank-transfer payout details shown on the bank-transfer checkout page.
#[derive(Debug, PartialEq)]
pub struct BankTransferSettings {
    pub bank_name: String,
    pub account_holder: String,
    pub kennitala: String,
    pub account_number: String,
}

impl Default for BankTransferSettings {
    fn default() -> (s: BankTransferSettings)
        ensures
            bank_view(s) == (Seq::<char>::empty(), Seq::<char>::empty(), Seq::<char>::empty(), Seq::<char>::empty()),
    {
        BankTransferSettings {
            bank_name: String::new(),
            account_holder: String::new(),
            kennitala: String::new(),
            account_number: String::new(),
        }
    }
}

/// Admin-copy notification routing.
#[derive(Debug, PartialEq)]
pub struct NotificationSettings {
    pub admin_copy_enabled: bool,
    pub admin_email: String,
    pub admin_phone: String,
}

impl Default for NotificationSettings {
    fn default() -> (s: NotificationSettings)
        ensures
            notify_view(s) == (false, Seq::<char>::empty(), Seq::<char>::empty()),
    {
        NotificationSettings { admin_copy_enabled: false, admin_email: String::new(), admin_phone: String::new() }
    }
}

/// The bank details by their text.
pub open spec fn bank_view(s: BankTransferSettings) -> (Seq<char>, Seq<char>, Seq<char>, Seq<char>) {
    (s.bank_name@, s.account_holder@, s.kennitala@, s.account_number@)
}

/// The notification routing by its flag and text.
pub open spec fn notify_view(s: NotificationSettings) -> (bool, Seq<char>, Seq<char>) {
    (s.admin_copy_enabled, s.admin_email@, s.admin_phone@)
}

/// Why bank details are refused, checked in this order; `None` when they
/// are complete.
pub open spec fn bank_refusal(s: BankTransferSettings) -> Option<Seq<char>> {
    if trim(s.bank_name@).len() == 0 {
        Some("Vantar heiti banka"@)
    } else if trim(s.account_holder@).len() == 0 {
        Some("Vantar viðtakanda"@)
    } else if trim(s.kennitala@).len() == 0 {
        Some("Vantar kennitölu"@)
    } else if trim(s.account_number@).len() == 0 {
        Some("Vantar reikningsupplýsingar"@)
    } else {
        None
    }
}

/// The storage key of an SMS template.
pub open spec fn sms_key(key: Seq<char>) -> Seq<char> {
    "sms:"@ + key
}

fn sms_key_of(key: &str) -> (r: String)
    ensures
        r@ == sms_key(key@),
{
    let mut v: Vec<char> = Vec::new();
    append_str(&mut v, "sms:");
    append_str(&mut v, key);
    string_of(&v)
}

/// The saved settings.
pub struct Store {
    bank: Option<BankTransferSettings>,
    notify: Option<NotificationSettings>,
    sms: Table<String>,
}

impl Store {
    /// The saved bank details, if any were saved.
    pub closed spec fn bank(&self) -> Option<(Seq<char>, Seq<char>, Seq<char>, Seq<char>)> {
        match self.bank {
            Some(b) => Some(bank_view(b)),
            None => None,
        }
    }

    /// The saved notification routing, if any was saved.
    pub closed spec fn notify(&self) -> Option<(bool, Seq<char>, Seq<char>)> {
        match self.notify {
            Some(n) => Some(notify_view(n)),
            None => None,
        }
    }

    /// The saved template bodies by storage key.
    pub closed spec fn templates(&self) -> Seq<(Seq<char>, String)> {
        self.sms.view()
    }

    /// Nothing saved yet.
    pub fn new() -> (s: Store)
        ensures
            s.bank() is None,
            s.notify() is None,
            s.templates() == Seq::<(Seq<char>, String)>::empty(),
    {
        Store { bank: None, notify: None, sms: Table::new() }
    }

    /// The bank details: what was saved, or all empty.
    pub fn bank_transfer(&self) -> (r: BankTransferSettings)
        ensures
            bank_view(r) == match self.bank() {
                Some(b) => b,
                None => (Seq::<char>::empty(), Seq::<char>::empty(), Seq::<char>::empty(), Seq::<char>::empty()),
            },
    {
        match &self.bank {
            Some(b) => BankTransferSettings {
                bank_name: b.bank_name.clone(),
                account_holder: b.account_holder.clone(),
                kennitala: b.kennitala.clone(),
                account_number: b.account_number.clone(),
            },
            None => BankTransferSettings::default(),
        }
    }

    /// Save the bank details, trimmed, when every field is filled in.
    pub fn set_bank_transfer(&mut self, input: &BankTransferSettings) -> (r: Result<(), String>)
        ensures
            final(self).notify() == old(self).notify(),
            final(self).templates() == old(self).templates(),
            match bank_refusal(*input) {
                Some(e) => r matches Err(m) && m@ == e && final(self).bank() == old(self).bank(),
                None => r is Ok && final(self).bank() == Some(
                    (
                        trim(input.bank_name@),
                        trim(input.account_holder@),
                        trim(input.kennitala@),
                        trim(input.account_number@),
                    ),
                ),
            },
    {
        let bank_name = trim_str(input.bank_name.as_str());
        let account_holder = trim_str(input.account_holder.as_str());
        let kennitala = trim_str(input.kennitala.as_str());
        let account_number = trim_str(input.account_number.as_str());
        if bank_name.len() == 0 {
            return Err(owned("Vantar heiti banka"));
        }
        if account_holder.len() == 0 {
            return Err(owned("Vantar viðtakanda"));
        }
        if kennitala.len() == 0 {
            return Err(owned("Vantar kennitölu"));
        }
        if account_number.len() == 0 {
            return Err(owned("Vantar reikningsupplýsingar"));
        }
        self.bank = Some(
            BankTransferSettings {
                bank_name: string_of(&bank_name),
                account_holder: string_of(&account_holder),
                kennitala: string_of(&kennitala),
                account_number: string_of(&account_number),
            },
        );
        Ok(())
    }

    /// The notification routing: what was saved, or off and empty.
    pub fn notifications(&self) -> (r: NotificationSettings)
        ensures
            notify_view(r) == match self.notify() {
                Some(n) => n,
                None => (false, Seq::<char>::empty(), Seq::<char>::empty()),
            },
    {
        match &self.notify {
            Some(n) => NotificationSettings {
                admin_copy_enabled: n.admin_copy_enabled,
                admin_email: n.admin_email.clone(),
                admin_phone: n.admin_phone.clone(),
            },
            None => NotificationSettings::default(),
        }
    }

    /// Save the notification routing, with the email and phone trimmed.
    pub fn set_notifications(&mut self, input: &NotificationSettings) -> (r: Result<(), String>)
        ensures
            r is Ok,
            final(self).notify() == Some(
                (input.admin_copy_enabled, trim(input.admin_email@), trim(input.admin_phone@)),
            ),
            final(self).bank() == old(self).bank(),
            final(self).templates() == old(self).templates(),
    {
        self.notify = Some(
            NotificationSettings {
                admin_copy_enabled: input.admin_copy_enabled,
                admin_email: string_of(&trim_str(input.admin_email.as_str())),
                admin_phone: string_of(&trim_str(input.admin_phone.as_str())),
            },
        );
        Ok(())
    }

    /// The body of SMS template `key`, if one was saved.
    pub fn sms_template(&self, key: &str) -> (r: Option<String>)
        ensures
            r == lookup(self.templates(), sms_key(key@)),
    {
        let k = sms_key_of(key);
        match self.sms.get(k.as_str()) {
            Some(b) => Some(b.clone()),
            None => None,
        }
    }

    /// Save the body of SMS template `key`; both must have something besides
    /// blanks.
    pub fn set_sms_template(&mut self, key: &str, body: &str) -> (r: Result<(), String>)
        ensures
            final(self).bank() == old(self).bank(),
            final(self).notify() == old(self).notify(),
            trim(key@).len() == 0 ==> (r matches Err(m) && m@ == "Vantar lykil"@) && final(self).templates() == old(
                self,
            ).templates(),
            trim(key@).len() > 0 && trim(body@).len() == 0 ==> (r matches Err(m) && m@ == "Vantar texta"@)
                && final(self).templates() == old(self).templates(),
            trim(key@).len() > 0 && trim(body@).len() > 0 ==> r is Ok && (lookup(final(self).templates(), sms_key(key@)) matches Some(
                b,
            ) && b@ == body@ && final(self).templates() == upsert(old(self).templates(), sms_key(key@), b)),
    {
        if trim_str(key).len() == 0 {
            return Err(owned("Vantar lykil"));
        }
        if trim_str(body).len() == 0 {
            return Err(owned("Vantar texta"));
        }
        let k = sms_key_of(key);
        let b = owned(body);
        let ghost bb = b;
        let ghost pre = self.sms.view();
        self.sms.insert(k.as_str(), b);
        proof {
            lemma_lookup_upsert(pre, k@, bb, k@);
        }
        Ok(())
    }
}

/// Bank details are taken exactly when each of the four fields has
/// something besides whitespace; the first blank one, in the order bank,
/// holder, kennitala, account, names the refusal.
pub proof fn lemma_bank_details_complete(s: BankTransferSettings)
    ensures
        bank_refusal(s) is None <==> (trim(s.bank_name@).len() > 0 && trim(s.account_holder@).len() > 0 && trim(
            s.kennitala@,
        ).len() > 0 && trim(s.account_number@).len() > 0),
        trim(s.bank_name@).len() == 0 ==> bank_refusal(s) == Some("Vantar heiti banka"@),
        trim(s.bank_name@).len() > 0 && trim(s.account_holder@).len() == 0 ==> bank_refusal(s) == Some(
            "Vantar viðtakanda"@,
        ),
        trim(s.bank_name@).len() > 0 && trim(s.account_holder@).len() > 0 && trim(s.kennitala@).len() == 0
            ==> bank_refusal(s) == Some("Vantar kennitölu"@),
{
}

} // verus!
