//! Decision logic of the safekeeper supervisor: connection strings,
//! management URLs, process arguments, and the start/stop polling policy.
//!
//! The supervisor itself spawns processes, sends signals and performs HTTP
//! requests; everything it decides on the way is computed here from plain
//! values.

use vstd::prelude::*;

use crate::ids::{NodeId, TenantId};
use crate::num::dec_digits;
use crate::paths::join_path;

verus! {

/// `Error: `
pub open spec fn lit_error_prefix() -> Seq<u8> {
    seq![69u8, 114u8, 114u8, 111u8, 114u8, 58u8, 32u8]
}

/// `Http error (`
pub open spec fn lit_http_error_open() -> Seq<u8> {
    seq![72u8, 116u8, 116u8, 112u8, 32u8, 101u8, 114u8, 114u8, 111u8, 114u8, 32u8, 40u8]
}

/// `) at `
pub open spec fn lit_http_error_mid() -> Seq<u8> {
    seq![41u8, 32u8, 97u8, 116u8, 32u8]
}

/// `.`
pub open spec fn lit_dot() -> Seq<u8> {
    seq![46u8]
}

/// `postgresql://no_user@127.0.0.1:`
pub open spec fn lit_conn_head() -> Seq<u8> {
    seq![112u8, 111u8, 115u8, 116u8, 103u8, 114u8, 101u8, 115u8, 113u8, 108u8, 58u8, 47u8, 47u8, 110u8, 111u8, 95u8, 117u8, 115u8, 101u8, 114u8, 64u8, 49u8, 50u8, 55u8, 46u8, 48u8, 46u8, 48u8, 46u8, 49u8, 58u8]
}

/// `/no_db`
pub open spec fn lit_conn_tail() -> Seq<u8> {
    seq![47u8, 110u8, 111u8, 95u8, 100u8, 98u8]
}

/// `http://127.0.0.1:`
pub open spec fn lit_url_head() -> Seq<u8> {
    seq![104u8, 116u8, 116u8, 112u8, 58u8, 47u8, 47u8, 49u8, 50u8, 55u8, 46u8, 48u8, 46u8, 48u8, 46u8, 49u8, 58u8]
}

/// `/v1`
pub open spec fn lit_url_tail() -> Seq<u8> {
    seq![47u8, 118u8, 49u8]
}

/// `sk`
pub open spec fn lit_sk_prefix() -> Seq<u8> {
    seq![115u8, 107u8]
}

/// `safekeeper.pid`
pub open spec fn lit_pid_file() -> Seq<u8> {
    seq![115u8, 97u8, 102u8, 101u8, 107u8, 101u8, 101u8, 112u8, 101u8, 114u8, 46u8, 112u8, 105u8, 100u8]
}

/// `/status`
pub open spec fn lit_status_path() -> Seq<u8> {
    seq![47u8, 115u8, 116u8, 97u8, 116u8, 117u8, 115u8]
}

/// `/tenant/`
pub open spec fn lit_tenant_path() -> Seq<u8> {
    seq![47u8, 116u8, 101u8, 110u8, 97u8, 110u8, 116u8, 47u8]
}

/// `/timeline`
pub open spec fn lit_timeline_path() -> Seq<u8> {
    seq![47u8, 116u8, 105u8, 109u8, 101u8, 108u8, 105u8, 110u8, 101u8]
}

/// `-D`
pub open spec fn lit_flag_datadir() -> Seq<u8> {
    seq![45u8, 68u8]
}

/// `--id`
pub open spec fn lit_flag_id() -> Seq<u8> {
    seq![45u8, 45u8, 105u8, 100u8]
}

/// `--listen-pg`
pub open spec fn lit_flag_listen_pg() -> Seq<u8> {
    seq![45u8, 45u8, 108u8, 105u8, 115u8, 116u8, 101u8, 110u8, 45u8, 112u8, 103u8]
}

/// `--listen-http`
pub open spec fn lit_flag_listen_http() -> Seq<u8> {
    seq![45u8, 45u8, 108u8, 105u8, 115u8, 116u8, 101u8, 110u8, 45u8, 104u8, 116u8, 116u8, 112u8]
}

/// `--recall`
pub open spec fn lit_flag_recall() -> Seq<u8> {
    seq![45u8, 45u8, 114u8, 101u8, 99u8, 97u8, 108u8, 108u8]
}

/// `1 second`
pub open spec fn lit_recall_value() -> Seq<u8> {
    seq![49u8, 32u8, 115u8, 101u8, 99u8, 111u8, 110u8, 100u8]
}

/// `--daemonize`
pub open spec fn lit_flag_daemonize() -> Seq<u8> {
    seq![45u8, 45u8, 100u8, 97u8, 101u8, 109u8, 111u8, 110u8, 105u8, 122u8, 101u8]
}

/// `--no-sync`
pub open spec fn lit_flag_no_sync() -> Seq<u8> {
    seq![45u8, 45u8, 110u8, 111u8, 45u8, 115u8, 121u8, 110u8, 99u8]
}

/// `--broker-endpoints`
pub open spec fn lit_flag_broker_endpoints() -> Seq<u8> {
    seq![45u8, 45u8, 98u8, 114u8, 111u8, 107u8, 101u8, 114u8, 45u8, 101u8, 110u8, 100u8, 112u8, 111u8, 105u8, 110u8, 116u8, 115u8]
}

/// `--broker-etcd-prefix`
pub open spec fn lit_flag_broker_prefix() -> Seq<u8> {
    seq![45u8, 45u8, 98u8, 114u8, 111u8, 107u8, 101u8, 114u8, 45u8, 101u8, 116u8, 99u8, 100u8, 45u8, 112u8, 114u8, 101u8, 102u8, 105u8, 120u8]
}

/// `--backup-threads`
pub open spec fn lit_flag_backup_threads() -> Seq<u8> {
    seq![45u8, 45u8, 98u8, 97u8, 99u8, 107u8, 117u8, 112u8, 45u8, 116u8, 104u8, 114u8, 101u8, 97u8, 100u8, 115u8]
}

/// `--remote-storage`
pub open spec fn lit_flag_remote_storage() -> Seq<u8> {
    seq![45u8, 45u8, 114u8, 101u8, 109u8, 111u8, 116u8, 101u8, 45u8, 115u8, 116u8, 111u8, 114u8, 97u8, 103u8, 101u8]
}

/// `--auth-validation-public-key-path`
pub open spec fn lit_flag_auth_key() -> Seq<u8> {
    seq![45u8, 45u8, 97u8, 117u8, 116u8, 104u8, 45u8, 118u8, 97u8, 108u8, 105u8, 100u8, 97u8, 116u8, 105u8, 111u8, 110u8, 45u8, 112u8, 117u8, 98u8, 108u8, 105u8, 99u8, 45u8, 107u8, 101u8, 121u8, 45u8, 112u8, 97u8, 116u8, 104u8]
}

/// `auth_public_key.pem`
pub open spec fn lit_auth_key_file() -> Seq<u8> {
    seq![97u8, 117u8, 116u8, 104u8, 95u8, 112u8, 117u8, 98u8, 108u8, 105u8, 99u8, 95u8, 107u8, 101u8, 121u8, 46u8, 112u8, 101u8, 109u8]
}

/// `127.0.0.1:`
pub open spec fn lit_listen_host() -> Seq<u8> {
    seq![49u8, 50u8, 55u8, 46u8, 48u8, 46u8, 48u8, 46u8, 49u8, 58u8]
}

fn push_error_prefix(out: &mut Vec<u8>)
    ensures
        final(out)@ == old(out)@ + lit_error_prefix(),
{
    out.push(69);
    out.push(114);
    out.push(114);
    out.push(111);
    out.push(114);
    out.push(58);
    out.push(32);
    proof {
        assert(out@ =~= old(out)@ + lit_error_prefix());
    }
}

fn push_http_error_open(out: &mut Vec<u8>)
    ensures
        final(out)@ == old(out)@ + lit_http_error_open(),
{
    out.push(72);
    out.push(116);
    out.push(116);
    out.push(112);
    out.push(32);
    out.push(101);
    out.push(114);
    out.push(114);
    out.push(111);
    out.push(114);
    out.push(32);
    out.push(40);
    proof {
        assert(out@ =~= old(out)@ + lit_http_error_open());
    }
}

fn push_http_error_mid(out: &mut Vec<u8>)
    ensures
        final(out)@ == old(out)@ + lit_http_error_mid(),
{
    out.push(41);
    out.push(32);
    out.push(97);
    out.push(116);
    out.push(32);
    proof {
        assert(out@ =~= old(out)@ + lit_http_error_mid());
    }
}

fn push_dot(out: &mut Vec<u8>)
    ensures
        final(out)@ == old(out)@ + lit_dot(),
{
    out.push(46);
    proof {
        assert(out@ =~= old(out)@ + lit_dot());
    }
}

fn push_conn_head(out: &mut Vec<u8>)
    ensures
        final(out)@ == old(out)@ + lit_conn_head(),
{
    out.push(112);
    out.push(111);
    out.push(115);
    out.push(116);
    out.push(103);
    out.push(114);
    out.push(101);
    out.push(115);
    out.push(113);
    out.push(108);
    out.push(58);
    out.push(47);
    out.push(47);
    out.push(110);
    out.push(111);
    out.push(95);
    out.push(117);
    out.push(115);
    out.push(101);
    out.push(114);
    out.push(64);
    out.push(49);
    out.push(50);
    out.push(55);
    out.push(46);
    out.push(48);
    out.push(46);
    out.push(48);
    out.push(46);
    out.push(49);
    out.push(58);
    proof {
        assert(out@ =~= old(out)@ + lit_conn_head());
    }
}

fn push_conn_tail(out: &mut Vec<u8>)
    ensures
        final(out)@ == old(out)@ + lit_conn_tail(),
{
    out.push(47);
    out.push(110);
    out.push(111);
    out.push(95);
    out.push(100);
    out.push(98);
    proof {
        assert(out@ =~= old(out)@ + lit_conn_tail());
    }
}

fn push_url_head(out: &mut Vec<u8>)
    ensures
        final(out)@ == old(out)@ + lit_url_head(),
{
    out.push(104);
    out.push(116);
    out.push(116);
    out.push(112);
    out.push(58);
    out.push(47);
    out.push(47);
    out.push(49);
    out.push(50);
    out.push(55);
    out.push(46);
    out.push(48);
    out.push(46);
    out.push(48);
    out.push(46);
    out.push(49);
    out.push(58);
    proof {
        assert(out@ =~= old(out)@ + lit_url_head());
    }
}

fn push_url_tail(out: &mut Vec<u8>)
    ensures
        final(out)@ == old(out)@ + lit_url_tail(),
{
    out.push(47);
    out.push(118);
    out.push(49);
    proof {
        assert(out@ =~= old(out)@ + lit_url_tail());
    }
}

fn push_sk_prefix(out: &mut Vec<u8>)
    ensures
        final(out)@ == old(out)@ + lit_sk_prefix(),
{
    out.push(115);
    out.push(107);
    proof {
        assert(out@ =~= old(out)@ + lit_sk_prefix());
    }
}

fn push_pid_file(out: &mut Vec<u8>)
    ensures
        final(out)@ == old(out)@ + lit_pid_file(),
{
    out.push(115);
    out.push(97);
    out.push(102);
    out.push(101);
    out.push(107);
    out.push(101);
    out.push(101);
    out.push(112);
    out.push(101);
    out.push(114);
    out.push(46);
    out.push(112);
    out.push(105);
    out.push(100);
    proof {
        assert(out@ =~= old(out)@ + lit_pid_file());
    }
}

fn push_status_path(out: &mut Vec<u8>)
    ensures
        final(out)@ == old(out)@ + lit_status_path(),
{
    out.push(47);
    out.push(115);
    out.push(116);
    out.push(97);
    out.push(116);
    out.push(117);
    out.push(115);
    proof {
        assert(out@ =~= old(out)@ + lit_status_path());
    }
}

fn push_tenant_path(out: &mut Vec<u8>)
    ensures
        final(out)@ == old(out)@ + lit_tenant_path(),
{
    out.push(47);
    out.push(116);
    out.push(101);
    out.push(110);
    out.push(97);
    out.push(110);
    out.push(116);
    out.push(47);
    proof {
        assert(out@ =~= old(out)@ + lit_tenant_path());
    }
}

fn push_timeline_path(out: &mut Vec<u8>)
    ensures
        final(out)@ == old(out)@ + lit_timeline_path(),
{
    out.push(47);
    out.push(116);
    out.push(105);
    out.push(109);
    out.push(101);
    out.push(108);
    out.push(105);
    out.push(110);
    out.push(101);
    proof {
        assert(out@ =~= old(out)@ + lit_timeline_path());
    }
}

fn push_flag_datadir(out: &mut Vec<u8>)
    ensures
        final(out)@ == old(out)@ + lit_flag_datadir(),
{
    out.push(45);
    out.push(68);
    proof {
        assert(out@ =~= old(out)@ + lit_flag_datadir());
    }
}

fn push_flag_id(out: &mut Vec<u8>)
    ensures
        final(out)@ == old(out)@ + lit_flag_id(),
{
    out.push(45);
    out.push(45);
    out.push(105);
    out.push(100);
    proof {
        assert(out@ =~= old(out)@ + lit_flag_id());
    }
}

fn push_flag_listen_pg(out: &mut Vec<u8>)
    ensures
        final(out)@ == old(out)@ + lit_flag_listen_pg(),
{
    out.push(45);
    out.push(45);
    out.push(108);
    out.push(105);
    out.push(115);
    out.push(116);
    out.push(101);
    out.push(110);
    out.push(45);
    out.push(112);
    out.push(103);
    proof {
        assert(out@ =~= old(out)@ + lit_flag_listen_pg());
    }
}

fn push_flag_listen_http(out: &mut Vec<u8>)
    ensures
        final(out)@ == old(out)@ + lit_flag_listen_http(),
{
    out.push(45);
    out.push(45);
    out.push(108);
    out.push(105);
    out.push(115);
    out.push(116);
    out.push(101);
    out.push(110);
    out.push(45);
    out.push(104);
    out.push(116);
    out.push(116);
    out.push(112);
    proof {
        assert(out@ =~= old(out)@ + lit_flag_listen_http());
    }
}

fn push_flag_recall(out: &mut Vec<u8>)
    ensures
        final(out)@ == old(out)@ + lit_flag_recall(),
{
    out.push(45);
    out.push(45);
    out.push(114);
    out.push(101);
    out.push(99);
    out.push(97);
    out.push(108);
    out.push(108);
    proof {
        assert(out@ =~= old(out)@ + lit_flag_recall());
    }
}

fn push_recall_value(out: &mut Vec<u8>)
    ensures
        final(out)@ == old(out)@ + lit_recall_value(),
{
    out.push(49);
    out.push(32);
    out.push(115);
    out.push(101);
    out.push(99);
    out.push(111);
    out.push(110);
    out.push(100);
    proof {
        assert(out@ =~= old(out)@ + lit_recall_value());
    }
}

fn push_flag_daemonize(out: &mut Vec<u8>)
    ensures
        final(out)@ == old(out)@ + lit_flag_daemonize(),
{
    out.push(45);
    out.push(45);
    out.push(100);
    out.push(97);
    out.push(101);
    out.push(109);
    out.push(111);
    out.push(110);
    out.push(105);
    out.push(122);
    out.push(101);
    proof {
        assert(out@ =~= old(out)@ + lit_flag_daemonize());
    }
}

fn push_flag_no_sync(out: &mut Vec<u8>)
    ensures
        final(out)@ == old(out)@ + lit_flag_no_sync(),
{
    out.push(45);
    out.push(45);
    out.push(110);
    out.push(111);
    out.push(45);
    out.push(115);
    out.push(121);
    out.push(110);
    out.push(99);
    proof {
        assert(out@ =~= old(out)@ + lit_flag_no_sync());
    }
}

fn push_flag_broker_endpoints(out: &mut Vec<u8>)
    ensures
        final(out)@ == old(out)@ + lit_flag_broker_endpoints(),
{
    out.push(45);
    out.push(45);
    out.push(98);
    out.push(114);
    out.push(111);
    out.push(107);
    out.push(101);
    out.push(114);
    out.push(45);
    out.push(101);
    out.push(110);
    out.push(100);
    out.push(112);
    out.push(111);
    out.push(105);
    out.push(110);
    out.push(116);
    out.push(115);
    proof {
        assert(out@ =~= old(out)@ + lit_flag_broker_endpoints());
    }
}

fn push_flag_broker_prefix(out: &mut Vec<u8>)
    ensures
        final(out)@ == old(out)@ + lit_flag_broker_prefix(),
{
    out.push(45);
    out.push(45);
    out.push(98);
    out.push(114);
    out.push(111);
    out.push(107);
    out.push(101);
    out.push(114);
    out.push(45);
    out.push(101);
    out.push(116);
    out.push(99);
    out.push(100);
    out.push(45);
    out.push(112);
    out.push(114);
    out.push(101);
    out.push(102);
    out.push(105);
    out.push(120);
    proof {
        assert(out@ =~= old(out)@ + lit_flag_broker_prefix());
    }
}

fn push_flag_backup_threads(out: &mut Vec<u8>)
    ensures
        final(out)@ == old(out)@ + lit_flag_backup_threads(),
{
    out.push(45);
    out.push(45);
    out.push(98);
    out.push(97);
    out.push(99);
    out.push(107);
    out.push(117);
    out.push(112);
    out.push(45);
    out.push(116);
    out.push(104);
    out.push(114);
    out.push(101);
    out.push(97);
    out.push(100);
    out.push(115);
    proof {
        assert(out@ =~= old(out)@ + lit_flag_backup_threads());
    }
}

fn push_flag_remote_storage(out: &mut Vec<u8>)
    ensures
        final(out)@ == old(out)@ + lit_flag_remote_storage(),
{
    out.push(45);
    out.push(45);
    out.push(114);
    out.push(101);
    out.push(109);
    out.push(111);
    out.push(116);
    out.push(101);
    out.push(45);
    out.push(115);
    out.push(116);
    out.push(111);
    out.push(114);
    out.push(97);
    out.push(103);
    out.push(101);
    proof {
        assert(out@ =~= old(out)@ + lit_flag_remote_storage());
    }
}

fn push_flag_auth_key(out: &mut Vec<u8>)
    ensures
        final(out)@ == old(out)@ + lit_flag_auth_key(),
{
    out.push(45);
    out.push(45);
    out.push(97);
    out.push(117);
    out.push(116);
    out.push(104);
    out.push(45);
    out.push(118);
    out.push(97);
    out.push(108);
    out.push(105);
    out.push(100);
    out.push(97);
    out.push(116);
    out.push(105);
    out.push(111);
    out.push(110);
    out.push(45);
    out.push(112);
    out.push(117);
    out.push(98);
    out.push(108);
    out.push(105);
    out.push(99);
    out.push(45);
    out.push(107);
    out.push(101);
    out.push(121);
    out.push(45);
    out.push(112);
    out.push(97);
    out.push(116);
    out.push(104);
    proof {
        assert(out@ =~= old(out)@ + lit_flag_auth_key());
    }
}

fn push_auth_key_file(out: &mut Vec<u8>)
    ensures
        final(out)@ == old(out)@ + lit_auth_key_file(),
{
    out.push(97);
    out.push(117);
    out.push(116);
    out.push(104);
    out.push(95);
    out.push(112);
    out.push(117);
    out.push(98);
    out.push(108);
    out.push(105);
    out.push(99);
    out.push(95);
    out.push(107);
    out.push(101);
    out.push(121);
    out.push(46);
    out.push(112);
    out.push(101);
    out.push(109);
    proof {
        assert(out@ =~= old(out)@ + lit_auth_key_file());
    }
}

fn push_listen_host(out: &mut Vec<u8>)
    ensures
        final(out)@ == old(out)@ + lit_listen_host(),
{
    out.push(49);
    out.push(50);
    out.push(55);
    out.push(46);
    out.push(48);
    out.push(46);
    out.push(48);
    out.push(46);
    out.push(49);
    out.push(58);
    proof {
        assert(out@ =~= old(out)@ + lit_listen_host());
    }
}

/// An HTTP error from the safekeeper's management API.
#[derive(Debug)]
pub enum SafekeeperHttpError {
    /// The request itself failed; `connect_refused` is set when the
    /// connection could not even be opened.
    Transport { connect_refused: bool, message: Vec<u8> },
    /// The safekeeper answered with an error status; carries the rendered
    /// message.
    Response(Vec<u8>),
}

/// What the supervisor reads off an HTTP response: the status code, the
/// request URL, and the error message of the body when one parsed.
#[derive(Debug)]
pub struct HttpResponse {
    pub status: u16,
    pub url: Vec<u8>,
    pub error_message: Option<Vec<u8>>,
}

/// Responses that can check themselves for an error status.
pub trait ResponseErrorMessageExt: Sized {
    /// The response carries no client or server error.
    spec fn error_ok(&self) -> bool;

    /// The message a failing response turns into.
    spec fn error_text(&self) -> Seq<u8>;

    /// Passes a healthy response through; turns an error status into a
    /// typed error carrying the body's message.
    fn error_from_body(self) -> (r: Result<Self, SafekeeperHttpError>)
        ensures
            match r {
                Ok(resp) => resp == self && self.error_ok(),
                Err(SafekeeperHttpError::Response(m)) => !self.error_ok() && m@
                    == self.error_text(),
                Err(_) => false,
            },
    ;
}

impl ResponseErrorMessageExt for HttpResponse {
    /// Client errors are 400..=499; server errors are 500..=599.
    open spec fn error_ok(&self) -> bool {
        !(400 <= self.status < 600)
    }

    open spec fn error_text(&self) -> Seq<u8> {
        match self.error_message {
            Some(m) => lit_error_prefix() + m@,
            None => lit_http_error_open() + dec_digits(self.status as nat) + lit_http_error_mid()
                + self.url@ + lit_dot(),
        }
    }

    fn error_from_body(self) -> (r: Result<Self, SafekeeperHttpError>) {
        if !(400 <= self.status && self.status < 600) {
            return Ok(self);
        }
        let mut m: Vec<u8> = Vec::new();
        match &self.error_message {
            Some(msg) => {
                push_error_prefix(&mut m);
                m.extend_from_slice(msg.as_slice());
                proof {
                    assert(m@ =~= self.error_text());
                }
            },
            None => {
                push_http_error_open(&mut m);
                let digits = crate::num::render_u64(self.status as u64);
                m.extend_from_slice(digits.as_slice());
                push_http_error_mid(&mut m);
                m.extend_from_slice(self.url.as_slice());
                push_dot(&mut m);
                proof {
                    assert(m@ =~= self.error_text());
                }
            },
        }
        Err(SafekeeperHttpError::Response(m))
    }
}

/// The libpq connection string of a safekeeper listening on `pg_port`.
pub open spec fn spec_connection_string(pg_port: u16) -> Seq<u8> {
    lit_conn_head() + dec_digits(pg_port as nat) + lit_conn_tail()
}

pub fn safekeeper_connection_string(pg_port: u16) -> (r: Vec<u8>)
    ensures
        r@ == spec_connection_string(pg_port),
{
    let mut out: Vec<u8> = Vec::new();
    push_conn_head(&mut out);
    let digits = crate::num::render_u64(pg_port as u64);
    out.extend_from_slice(digits.as_slice());
    push_conn_tail(&mut out);
    proof {
        assert(out@ =~= spec_connection_string(pg_port));
    }
    out
}

/// The management API base URL of a safekeeper listening on `http_port`.
pub open spec fn spec_http_base_url(http_port: u16) -> Seq<u8> {
    lit_url_head() + dec_digits(http_port as nat) + lit_url_tail()
}

pub fn http_base_url(http_port: u16) -> (r: Vec<u8>)
    ensures
        r@ == spec_http_base_url(http_port),
{
    let mut out: Vec<u8> = Vec::new();
    push_url_head(&mut out);
    let digits = crate::num::render_u64(http_port as u64);
    out.extend_from_slice(digits.as_slice());
    push_url_tail(&mut out);
    proof {
        assert(out@ =~= spec_http_base_url(http_port));
    }
    out
}

/// The status endpoint under a base URL.
pub fn status_url(base: &Vec<u8>) -> (r: Vec<u8>)
    ensures
        r@ == base@ + lit_status_path(),
{
    let mut out: Vec<u8> = Vec::new();
    out.extend_from_slice(base.as_slice());
    push_status_path(&mut out);
    proof {
        assert(out@ =~= base@ + lit_status_path());
    }
    out
}

/// The timeline-creation endpoint for a tenant under a base URL.
pub fn timeline_create_url(base: &Vec<u8>, tenant_id: &TenantId) -> (r: Vec<u8>)
    ensures
        r@ == base@ + lit_tenant_path() + crate::ids::hex_of(tenant_id.0@) + lit_timeline_path(),
{
    let mut out: Vec<u8> = Vec::new();
    out.extend_from_slice(base.as_slice());
    push_tenant_path(&mut out);
    let hex = tenant_id.render();
    out.extend_from_slice(hex.as_slice());
    push_timeline_path(&mut out);
    proof {
        assert(out@ =~= base@ + lit_tenant_path() + crate::ids::hex_of(tenant_id.0@)
            + lit_timeline_path());
    }
    out
}

/// The name of a safekeeper's data directory: `sk` followed by its id.
pub fn datadir_name(id: NodeId) -> (r: Vec<u8>)
    ensures
        r@ == lit_sk_prefix() + dec_digits(id.0 as nat),
{
    let mut out: Vec<u8> = Vec::new();
    push_sk_prefix(&mut out);
    let digits = crate::num::render_u64(id.0);
    out.extend_from_slice(digits.as_slice());
    proof {
        assert(out@ =~= lit_sk_prefix() + dec_digits(id.0 as nat));
    }
    out
}

/// The pid file inside a safekeeper's data directory.
pub fn pid_file_path(datadir: &Vec<u8>) -> (r: Vec<u8>)
    ensures
        r@ == datadir@ + seq![crate::paths::SEP] + lit_pid_file(),
{
    let name = {
        let mut n: Vec<u8> = Vec::new();
        push_pid_file(&mut n);
        n
    };
    join_path(datadir, &name)
}

/// A listen address on the loopback interface.
pub open spec fn spec_listen_addr(port: u16) -> Seq<u8> {
    lit_listen_host() + dec_digits(port as nat)
}

pub fn listen_addr(port: u16) -> (r: Vec<u8>)
    ensures
        r@ == spec_listen_addr(port),
{
    let mut out: Vec<u8> = Vec::new();
    push_listen_host(&mut out);
    let digits = crate::num::render_u64(port as u64);
    out.extend_from_slice(digits.as_slice());
    proof {
        assert(out@ =~= spec_listen_addr(port));
    }
    out
}

/// Everything the supervisor knows when it assembles a safekeeper's
/// command line.
#[derive(Debug)]
pub struct SafekeeperStartConfig {
    pub datadir: Vec<u8>,
    pub id: NodeId,
    pub pg_port: u16,
    pub http_port: u16,
    /// When clear, the safekeeper is told not to fsync (`--no-sync`).
    pub sync: bool,
    /// Comma-separated broker endpoints; empty means none configured.
    pub broker_endpoints: Vec<u8>,
    pub broker_etcd_prefix: Option<Vec<u8>>,
    pub backup_threads: Option<u64>,
    pub remote_storage: Option<Vec<u8>>,
    pub auth_enabled: bool,
    /// The base data directory, under which the auth public key lives.
    pub base_data_dir: Vec<u8>,
}

/// The argument list the safekeeper binary is started with.
pub open spec fn spec_start_args(cfg: SafekeeperStartConfig) -> Seq<Seq<u8>> {
    let base = seq![
        lit_flag_datadir(),
        cfg.datadir@,
        lit_flag_id(),
        dec_digits(cfg.id.0 as nat),
        lit_flag_listen_pg(),
        spec_listen_addr(cfg.pg_port),
        lit_flag_listen_http(),
        spec_listen_addr(cfg.http_port),
        lit_flag_recall(),
        lit_recall_value(),
        lit_flag_daemonize(),
    ];
    let s1 = if !cfg.sync {
        base + seq![lit_flag_no_sync()]
    } else {
        base
    };
    let s2 = if cfg.broker_endpoints@.len() > 0 {
        s1 + seq![lit_flag_broker_endpoints(), cfg.broker_endpoints@]
    } else {
        s1
    };
    let s3 = match cfg.broker_etcd_prefix {
        Some(p) => s2 + seq![lit_flag_broker_prefix(), p@],
        None => s2,
    };
    let s4 = match cfg.backup_threads {
        Some(n) => s3 + seq![lit_flag_backup_threads(), dec_digits(n as nat)],
        None => s3,
    };
    let s5 = match cfg.remote_storage {
        Some(u) => s4 + seq![lit_flag_remote_storage(), u@],
        None => s4,
    };
    if cfg.auth_enabled {
        s5 + seq![
            lit_flag_auth_key(),
            cfg.base_data_dir@ + seq![crate::paths::SEP] + lit_auth_key_file(),
        ]
    } else {
        s5
    }
}

/// Assembles the safekeeper's command line: data directory, node id, both
/// listen addresses, the recall interval, daemonization, and the optional
/// flags the configuration calls for.
#[verifier::rlimit(100)]
#[verifier::spinoff_prover]
pub fn start_args(cfg: &SafekeeperStartConfig) -> (r: Vec<Vec<u8>>)
    ensures
        r@.map_values(|a: Vec<u8>| a@) =~= spec_start_args(*cfg),
{
    let mut out: Vec<Vec<u8>> = Vec::new();
    let mut f: Vec<u8> = Vec::new();
    push_flag_datadir(&mut f);
    out.push(f);
    out.push(cfg.datadir.clone());
    let mut f: Vec<u8> = Vec::new();
    push_flag_id(&mut f);
    out.push(f);
    out.push(crate::num::render_u64(cfg.id.0));
    let mut f: Vec<u8> = Vec::new();
    push_flag_listen_pg(&mut f);
    out.push(f);
    out.push(listen_addr(cfg.pg_port));
    let mut f: Vec<u8> = Vec::new();
    push_flag_listen_http(&mut f);
    out.push(f);
    out.push(listen_addr(cfg.http_port));
    let mut f: Vec<u8> = Vec::new();
    push_flag_recall(&mut f);
    out.push(f);
    let mut f: Vec<u8> = Vec::new();
    push_recall_value(&mut f);
    out.push(f);
    let mut f: Vec<u8> = Vec::new();
    push_flag_daemonize(&mut f);
    out.push(f);
    if !cfg.sync {
        let mut f: Vec<u8> = Vec::new();
        push_flag_no_sync(&mut f);
        out.push(f);
    }
    if cfg.broker_endpoints.len() > 0 {
        let mut f: Vec<u8> = Vec::new();
        push_flag_broker_endpoints(&mut f);
        out.push(f);
        out.push(cfg.broker_endpoints.clone());
    }
    match &cfg.broker_etcd_prefix {
        Some(p) => {
            let mut f: Vec<u8> = Vec::new();
            push_flag_broker_prefix(&mut f);
            out.push(f);
            out.push(p.clone());
        },
        None => {},
    }
    match &cfg.backup_threads {
        Some(n) => {
            let mut f: Vec<u8> = Vec::new();
            push_flag_backup_threads(&mut f);
            out.push(f);
            out.push(crate::num::render_u64(*n));
        },
        None => {},
    }
    match &cfg.remote_storage {
        Some(u) => {
            let mut f: Vec<u8> = Vec::new();
            push_flag_remote_storage(&mut f);
            out.push(f);
            out.push(u.clone());
        },
        None => {},
    }
    if cfg.auth_enabled {
        let mut f: Vec<u8> = Vec::new();
        push_flag_auth_key(&mut f);
        out.push(f);
        let mut key: Vec<u8> = Vec::new();
        push_auth_key_file(&mut key);
        out.push(join_path(&cfg.base_data_dir, &key));
    }
    out
}

/// What the start loop does after one status poll. The loop makes up to
/// 14 attempts, one second apart.
#[derive(Clone, Copy, Debug, PartialEq, Eq, Structural)]
pub enum StartPollAction {
    /// The safekeeper answered: it is up.
    Started,
    /// The connection was refused early on; wait quietly.
    RetryQuietly,
    /// Still failing; wait, and say so.
    RetryWithNotice,
    /// The safekeeper answered with an error: it failed to start.
    Fail,
}

/// Decides the start loop's next step from the attempt number (1-based)
/// and the poll's outcome. A refused connection is normal during the first
/// five attempts; an error response means the process came up broken.
pub fn start_poll_action(attempt: u32, outcome: &Option<SafekeeperHttpError>) -> (r:
    StartPollAction)
    ensures
        r == match outcome {
            None => StartPollAction::Started,
            Some(SafekeeperHttpError::Transport { connect_refused, .. }) => if *connect_refused
                && attempt < 5 {
                StartPollAction::RetryQuietly
            } else {
                StartPollAction::RetryWithNotice
            },
            Some(SafekeeperHttpError::Response(_)) => StartPollAction::Fail,
        },
{
    match outcome {
        None => StartPollAction::Started,
        Some(SafekeeperHttpError::Transport { connect_refused, .. }) => {
            if *connect_refused && attempt < 5 {
                StartPollAction::RetryQuietly
            } else {
                StartPollAction::RetryWithNotice
            }
        },
        Some(SafekeeperHttpError::Response(_)) => StartPollAction::Fail,
    }
}

/// `SIGTERM` for a graceful stop, `SIGQUIT` for an immediate one.
pub fn stop_signal(immediate: bool) -> (r: i32)
    ensures
        r == if immediate {
            3int
        } else {
            15int
        },
{
    if immediate {
        3
    } else {
        15
    }
}

/// The outcome of probing the stopping process with signal zero.
#[derive(Clone, Copy, Debug, PartialEq, Eq, Structural)]
pub enum ProcessProbe {
    /// The process still exists.
    Alive,
    /// No such process: it is gone.
    Gone,
    /// The probe itself failed.
    ProbeFailed,
}

/// What the stop loop does after one probe. The loop probes every 100
/// milliseconds, up to 600 times, and prints a dot every tenth probe.
#[derive(Clone, Copy, Debug, PartialEq, Eq, Structural)]
pub enum StopPollAction {
    Done,
    KeepWaiting { print_dot: bool },
    Fail,
}

pub fn stop_poll_action(i: u32, probe: ProcessProbe) -> (r: StopPollAction)
    ensures
        r == match probe {
            ProcessProbe::Gone => StopPollAction::Done,
            ProcessProbe::Alive => StopPollAction::KeepWaiting { print_dot: i % 10 == 0 },
            ProcessProbe::ProbeFailed => StopPollAction::Fail,
        },
{
    match probe {
        ProcessProbe::Gone => StopPollAction::Done,
        ProcessProbe::Alive => StopPollAction::KeepWaiting { print_dot: i % 10 == 0 },
        ProcessProbe::ProbeFailed => StopPollAction::Fail,
    }
}

} // verus!
