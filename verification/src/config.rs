//! The parts of the configuration that the server's rules read.

use crate::text::{starts_with, texts, words, words_of};
use vstd::prelude::*;

verus! {

/// Where the certificate chain and the private key are found.
pub struct Tls {
    /// The path of the certificate chain.
    pub crt: String,
    /// The path of the private key.
    pub key: String,
}

/// Why no private key could be taken from a key file.
#[derive(Debug, Clone, Copy, PartialEq, Eq, Structural)]
pub enum KeyError {
    /// The file could not be read as keys.
    Invalid,
    /// The file was read and holds no key.
    Missing,
}

/// The key that is served with, from what a key file gave when it was read
/// as RSA keys and when it was read as PKCS #8 keys; `None` stands for a
/// reading that failed. The first RSA key is taken where there is one; where
/// there is none, the first PKCS #8 key, and the error of that reading.
pub open spec fn chosen_key(rsa: Option<Seq<Seq<u8>>>, pkcs8: Option<Seq<Seq<u8>>>) -> Result<
    Seq<u8>,
    KeyError,
> {
    if rsa is Some && rsa->0.len() > 0 {
        Ok(rsa->0[0])
    } else {
        match pkcs8 {
            None => Err(KeyError::Invalid),
            Some(keys) => if keys.len() > 0 {
                Ok(keys[0])
            } else {
                Err(KeyError::Missing)
            },
        }
    }
}

/// The keys of a reading as the contracts see them.
pub open spec fn keys_view(keys: Option<Vec<Vec<u8>>>) -> Option<Seq<Seq<u8>>> {
    match keys {
        Some(keys) => Some(Seq::new(keys@.len(), |i: int| keys@[i]@)),
        None => None,
    }
}

impl Tls {
    /// Chooses the private key among what the key file gave in its two
    /// readings.
    pub fn choose_key(rsa: Option<Vec<Vec<u8>>>, pkcs8: Option<Vec<Vec<u8>>>) -> (key: Result<
        Vec<u8>,
        KeyError,
    >)
        ensures
            match chosen_key(keys_view(rsa), keys_view(pkcs8)) {
                Ok(k) => key is Ok && key->Ok_0@ == k,
                Err(e) => key == Err::<Vec<u8>, KeyError>(e),
            },
    {
        if let Some(mut keys) = rsa {
            if keys.len() > 0 {
                return Ok(keys.swap_remove(0));
            }
        }
        match pkcs8 {
            None => Err(KeyError::Invalid),
            Some(mut keys) => {
                if keys.len() > 0 {
                    Ok(keys.swap_remove(0))
                } else {
                    Err(KeyError::Missing)
                }
            },
        }
    }
}

/// The status of the default page where the configuration names none.
pub fn default_status() -> (status: u16)
    ensures
        status == 200,
{
    200
}

/// The page that answers a request for which no file is found.
pub struct DefaultPage {
    /// The path of the page.
    pub file: String,
    /// The status that the page is sent with.
    pub status: u16,
}

/// The status that a response can carry: a number of three digits stands,
/// and 404 stands in for any other.
pub open spec fn status_or_not_found(status: u16) -> u16 {
    if 100 <= status <= 999 {
        status
    } else {
        404
    }
}

impl DefaultPage {
    /// The status that the default page is answered with.
    pub fn response_status(&self) -> (status: u16)
        ensures
            status == status_or_not_found(self.status),
    {
        if 100 <= self.status && self.status <= 999 {
            self.status
        } else {
            404
        }
    }
}

/// The occasions on which commands are run.
#[derive(Debug, Clone, Copy, PartialEq, Eq, Structural)]
pub enum HookType {
    /// New content has been taken in.
    Updated,
}

impl HookType {
    /// The name of the occasion, as it is written in the configuration.
    pub fn name(&self) -> (name: &'static str)
        ensures
            name@ == "updated"@,
    {
        match self {
            HookType::Updated => "updated",
        }
    }
}

/// What is to be done with one line of a hook.
#[derive(Debug, PartialEq, Eq)]
pub enum HookCall {
    /// Run `program` with `args`.
    Run { program: String, args: Vec<String>, line: String },
    /// The line does not name its program by an absolute path: it is not run.
    Refused { line: String },
}

/// A call with its texts as characters.
pub enum HookCallView {
    Run { program: Seq<char>, args: Seq<Seq<char>>, line: Seq<char> },
    Refused { line: Seq<char> },
}

impl View for HookCall {
    type V = HookCallView;

    open spec fn view(&self) -> HookCallView {
        match *self {
            HookCall::Run { program, args, line } => HookCallView::Run {
                program: program@,
                args: texts(args@),
                line: line@,
            },
            HookCall::Refused { line } => HookCallView::Refused { line: line@ },
        }
    }
}

/// The calls as the contracts see them.
pub open spec fn calls_view(calls: Seq<HookCall>) -> Seq<HookCallView> {
    Seq::new(calls.len(), |i: int| calls[i]@)
}

/// What is done with one line: nothing when it holds no word; the program of
/// its first word run with the other words, when the first word begins with
/// a slash; and a refusal otherwise.
pub open spec fn call_for(line: Seq<char>) -> Option<HookCallView> {
    let words = words_of(line);
    if words.len() == 0 {
        None
    } else if words[0].len() > 0 && words[0][0] == '/' {
        Some(HookCallView::Run { program: words[0], args: words.skip(1), line })
    } else {
        Some(HookCallView::Refused { line })
    }
}

/// What is done with the lines of a hook, in their order.
pub open spec fn calls_for(lines: Seq<Seq<char>>) -> Seq<HookCallView>
    decreases lines.len(),
{
    if lines.len() == 0 {
        Seq::empty()
    } else {
        let before = calls_for(lines.drop_last());
        match call_for(lines.last()) {
            Some(call) => before.push(call),
            None => before,
        }
    }
}

/// Commands that are run when something has happened.
pub struct Hooks {
    /// Run each time the content has been updated.
    pub updated: Option<Vec<String>>,
}

impl Hooks {
    /// The lines that are configured for an occasion.
    pub open spec fn lines(self, hook_type: HookType) -> Seq<Seq<char>> {
        match hook_type {
            HookType::Updated => match self.updated {
                Some(lines) => texts(lines@),
                None => Seq::empty(),
            },
        }
    }

    /// What is to be done on an occasion: for each configured line that
    /// holds a word, in order, the program to run or the refusal to run it.
    pub fn trigger(&self, hook_type: HookType) -> (calls: Vec<HookCall>)
        ensures
            calls_view(calls@) == calls_for(self.lines(hook_type)),
    {
        let mut calls: Vec<HookCall> = Vec::new();
        let hook = match hook_type {
            HookType::Updated => &self.updated,
        };
        if let Some(lines) = hook {
            let mut i: usize = 0;
            assert(texts(lines@).take(0) =~= Seq::<Seq<char>>::empty());
            assert(calls_view(calls@) =~= Seq::<HookCallView>::empty());
            while i < lines.len()
                invariant
                    i <= lines@.len(),
                    self.lines(hook_type) == texts(lines@),
                    calls_view(calls@) == calls_for(texts(lines@).take(i as int)),
                decreases lines@.len() - i,
            {
                let ghost before = calls_view(calls@);
                let line = lines[i].as_str();
                let mut found = words(line);
                proof {
                    let upto = texts(lines@).take(i + 1);
                    assert(upto.drop_last() =~= texts(lines@).take(i as int));
                    assert(upto.last() == line@);
                    reveal_strlit("/");
                }
                if found.len() > 0 {
                    let ghost all = texts(found@);
                    if starts_with(found[0].as_str(), "/") {
                        assert(found@[0]@.len() > 0 && found@[0]@[0] == '/') by {
                            assert("/"@.len() == 1);
                            assert(found@[0]@.take(1) == "/"@);
                            assert(found@[0]@.take(1)[0] == '/');
                        }
                        let program = found.remove(0);
                        assert(texts(found@) =~= all.skip(1));
                        calls.push(HookCall::Run { program, args: found, line: lines[i].clone() });
                    } else {
                        assert(!(found@[0]@.len() > 0 && found@[0]@[0] == '/')) by {
                            if found@[0]@.len() > 0 && found@[0]@[0] == '/' {
                                assert(found@[0]@.take(1) =~= "/"@);
                            }
                        }
                        calls.push(HookCall::Refused { line: lines[i].clone() });
                    }
                    assert(calls_view(calls@) =~= before.push(call_for(line@)->0));
                }
                i += 1;
            }
            assert(texts(lines@).take(i as int) =~= texts(lines@));
        }
        calls
    }
}

} // verus!
