//! The process-wide shared state: the served root directory and the port the
//! server bound.  A reader-writer lock guards the pair; every reader sees
//! either the old or the new value, never a partial write, and lock hold
//! times are a single field assignment plus a clone.

use vstd::prelude::*;
use vstd::rwlock::RwLock;
use vstd::string::StrSliceExecFns;
use crate::errors::ErrorKind;
use crate::path_model::{is_normal_root, normal_form};
use crate::path_guard::normal_form_string;
use crate::path_laws::lemma_normal_form_normal;

verus! {

/// The value under the lock: the served root and the bound port.  The port is
/// `None` until the server finishes binding; a bound port is never zero.
pub struct RootInfo {
    pub root: String,
    pub port: Option<u16>,
}

/// The lock invariant: the root is a normal absolute path, and a published
/// port is a real (non-zero) one.
pub open spec fn root_info_inv(v: RootInfo) -> bool {
    &&& is_normal_root(v.root@)
    &&& match v.port {
        Some(p) => p > 0,
        None => true,
    }
}

/// The invariant as the lock's predicate.
pub open spec fn root_info_pred() -> spec_fn(RootInfo) -> bool {
    |v: RootInfo| root_info_inv(v)
}

/// The shared holder of the served root and the bound port.
pub struct RootState {
    lock: RwLock<RootInfo, spec_fn(RootInfo) -> bool>,
}

impl RootState {
    /// The lock was built with the intended invariant.
    pub closed spec fn wf(&self) -> bool {
        self.lock.pred() == root_info_pred()
    }

    /// A fresh state: the given root is served, no port is published yet.
    pub fn new(root: String) -> (s: RootState)
        requires
            is_normal_root(root@),
        ensures
            s.wf(),
    {
        let info = RootInfo { root, port: None };
        let lock = RwLock::new(info, Ghost(root_info_pred()));
        RootState { lock }
    }

    /// The currently served root.
    pub fn get_root(&self) -> (r: String)
        requires
            self.wf(),
        ensures
            is_normal_root(r@),
    {
        let handle = self.lock.acquire_read();
        let root = handle.borrow().root.clone();
        handle.release_read();
        root
    }

    /// Replace the served root.  The old value is fully replaced; concurrent
    /// readers observe the old or the new root, never a mixture.
    pub fn set_root(&self, root: String)
        requires
            self.wf(),
            is_normal_root(root@),
    {
        let (old_info, handle) = self.lock.acquire_write();
        handle.release_write(RootInfo { root, port: old_info.port });
    }

    /// The published port, `None` until the server has bound.
    pub fn get_port(&self) -> (r: Option<u16>)
        requires
            self.wf(),
        ensures
            r matches Some(p) ==> p > 0,
    {
        let handle = self.lock.acquire_read();
        let port = handle.borrow().port;
        handle.release_read();
        port
    }

    /// Publish the bound port.  The port is set once per server lifetime:
    /// once published it is never replaced, so a late call leaves the first
    /// value in place.
    pub fn set_port(&self, port: u16)
        requires
            self.wf(),
            port > 0,
    {
        let (old_info, handle) = self.lock.acquire_write();
        match old_info.port {
            None => handle.release_write(RootInfo { root: old_info.root, port: Some(port) }),
            Some(_) => handle.release_write(old_info),
        }
    }

    /// The root together with the port, or `NotReady` while the server has
    /// not yet published a real port.
    pub fn get_root_and_port(&self) -> (r: Result<(String, u16), ErrorKind>)
        requires
            self.wf(),
        ensures
            r matches Ok(rp) ==> is_normal_root(rp.0@) && rp.1 > 0,
            r matches Err(e) ==> e == ErrorKind::NotReady,
    {
        let handle = self.lock.acquire_read();
        let root = handle.borrow().root.clone();
        let port = handle.borrow().port;
        handle.release_read();
        root_port_reply(root, port)
    }
}

/// Apply the folder picker's outcome: nothing picked is `DialogCancelled`; a
/// picked absolute path is normalized, stored as the served root, and handed
/// back; a path that is not absolute is rejected as `InvalidPath` and the
/// root is left alone.
pub fn choose_root(state: &RootState, dialog_result: Option<String>) -> (r: Result<
    String,
    ErrorKind,
>)
    requires
        state.wf(),
    ensures
        dialog_result is None ==> r == Err::<String, ErrorKind>(ErrorKind::DialogCancelled),
        dialog_result matches Some(p) ==> (if p@.len() > 0 && p@[0] == '/' {
            r matches Ok(n) && n@ == normal_form(p@)
        } else {
            r == Err::<String, ErrorKind>(ErrorKind::InvalidPath)
        }),
{
    match dialog_result {
        None => Err(ErrorKind::DialogCancelled),
        Some(p) => {
            if p.as_str().unicode_len() == 0 || p.as_str().get_char(0) != '/' {
                return Err(ErrorKind::InvalidPath);
            }
            let n = normal_form_string(p.as_str());
            proof {
                lemma_normal_form_normal(p@);
            }
            state.set_root(n.clone());
            Ok(n)
        },
    }
}

/// The reply for a root-and-port query: an unset or zero port is "not ready",
/// never a valid port; a real port is returned with the root.
pub fn root_port_reply(root: String, port: Option<u16>) -> (r: Result<(String, u16), ErrorKind>)
    ensures
        match port {
            None => r == Err::<(String, u16), ErrorKind>(ErrorKind::NotReady),
            Some(p) => if p == 0 {
                r == Err::<(String, u16), ErrorKind>(ErrorKind::NotReady)
            } else {
                r == Ok::<(String, u16), ErrorKind>((root, p))
            },
        },
{
    match port {
        None => Err(ErrorKind::NotReady),
        Some(p) => if p == 0 {
            Err(ErrorKind::NotReady)
        } else {
            Ok((root, p))
        },
    }
}

} // verus!
