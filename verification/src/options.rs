use crate::protocol::QualityOfService;
use vstd::prelude::*;

verus! {

/// What a `ClientOptions` holds, strings and bytes by their contents.
pub struct ClientOptionsView {
    pub server: Seq<char>,
    pub client_id: Seq<char>,
    pub username: Seq<char>,
    pub password: Seq<char>,
    pub clean_session: bool,
    pub will_enabled: bool,
    pub will_topic: Seq<char>,
    pub will_payload: Seq<u8>,
    pub will_qos: QualityOfService,
    pub will_retained: bool,
    pub keep_alive_ms: u64,
    pub connect_timeout_ms: u64,
    pub auto_reconnect: bool,
    pub connect_retry_interval_ms: u64,
    pub max_connect_retry_times: Option<u16>,
}

/// The settings of a client.  Durations are in milliseconds.
pub struct ClientOptions {
    server: String,
    client_id: String,
    username: String,
    password: String,
    clean_session: bool,
    will_enabled: bool,
    will_topic: String,
    will_payload: Vec<u8>,
    will_qos: QualityOfService,
    will_retained: bool,
    keep_alive_ms: u64,
    connect_timeout_ms: u64,
    auto_reconnect: bool,
    connect_retry_interval_ms: u64,
    max_connect_retry_times: Option<u16>,
}

impl View for ClientOptions {
    type V = ClientOptionsView;

    closed spec fn view(&self) -> ClientOptionsView {
        ClientOptionsView {
            server: self.server@,
            client_id: self.client_id@,
            username: self.username@,
            password: self.password@,
            clean_session: self.clean_session,
            will_enabled: self.will_enabled,
            will_topic: self.will_topic@,
            will_payload: self.will_payload@,
            will_qos: self.will_qos,
            will_retained: self.will_retained,
            keep_alive_ms: self.keep_alive_ms,
            connect_timeout_ms: self.connect_timeout_ms,
            auto_reconnect: self.auto_reconnect,
            connect_retry_interval_ms: self.connect_retry_interval_ms,
            max_connect_retry_times: self.max_connect_retry_times,
        }
    }
}

impl Default for ClientOptions {
    /// Empty strings and payload, every flag off, level 0, durations of zero
    /// and no limit on reconnection attempts.
    fn default() -> (r: Self)
        ensures
            r@ == (ClientOptionsView {
                server: Seq::empty(),
                client_id: Seq::empty(),
                username: Seq::empty(),
                password: Seq::empty(),
                clean_session: false,
                will_enabled: false,
                will_topic: Seq::empty(),
                will_payload: Seq::empty(),
                will_qos: QualityOfService::Level0,
                will_retained: false,
                keep_alive_ms: 0,
                connect_timeout_ms: 0,
                auto_reconnect: false,
                connect_retry_interval_ms: 0,
                max_connect_retry_times: None,
            }),
    {
        let r = ClientOptions {
            server: String::new(),
            client_id: String::new(),
            username: String::new(),
            password: String::new(),
            clean_session: false,
            will_enabled: false,
            will_topic: String::new(),
            will_payload: Vec::new(),
            will_qos: QualityOfService::Level0,
            will_retained: false,
            keep_alive_ms: 0,
            connect_timeout_ms: 0,
            auto_reconnect: false,
            connect_retry_interval_ms: 0,
            max_connect_retry_times: None,
        };
        proof {
            assert(r@.will_payload =~= Seq::<u8>::empty());
        }
        r
    }
}

impl ClientOptions {
    /// The defaults, but a keep-alive of 30 s, a connection timeout of 10 s
    /// and a reconnection interval of 5 s.
    pub fn new() -> (r: Self)
        ensures
            r@ == (ClientOptionsView {
                keep_alive_ms: 30000,
                connect_timeout_ms: 10000,
                connect_retry_interval_ms: 5000,
                ..ClientOptions::default_view()
            }),
    {
        let mut r = ClientOptions::default();
        r.keep_alive_ms = 30000;
        r.connect_timeout_ms = 10000;
        r.connect_retry_interval_ms = 5000;
        r
    }

    /// What `default` gives.
    pub open spec fn default_view() -> ClientOptionsView {
        ClientOptionsView {
            server: Seq::empty(),
            client_id: Seq::empty(),
            username: Seq::empty(),
            password: Seq::empty(),
            clean_session: false,
            will_enabled: false,
            will_topic: Seq::empty(),
            will_payload: Seq::empty(),
            will_qos: QualityOfService::Level0,
            will_retained: false,
            keep_alive_ms: 0,
            connect_timeout_ms: 0,
            auto_reconnect: false,
            connect_retry_interval_ms: 0,
            max_connect_retry_times: None,
        }
    }

    pub fn set_server(&mut self, addr: String) -> (r: &mut Self)
        ensures
            (*r)@ == (ClientOptionsView { server: addr@, ..old(self)@ }),
            *final(self) == *final(r),
    {
        self.server = addr;
        self
    }

    pub fn set_client_id(&mut self, client_id: String) -> (r: &mut Self)
        ensures
            (*r)@ == (ClientOptionsView { client_id: client_id@, ..old(self)@ }),
            *final(self) == *final(r),
    {
        self.client_id = client_id;
        self
    }

    pub fn set_username(&mut self, username: String) -> (r: &mut Self)
        ensures
            (*r)@ == (ClientOptionsView { username: username@, ..old(self)@ }),
            *final(self) == *final(r),
    {
        self.username = username;
        self
    }

    pub fn set_password(&mut self, password: String) -> (r: &mut Self)
        ensures
            (*r)@ == (ClientOptionsView { password: password@, ..old(self)@ }),
            *final(self) == *final(r),
    {
        self.password = password;
        self
    }

    pub fn set_clean_session(&mut self, clean: bool) -> (r: &mut Self)
        ensures
            (*r)@ == (ClientOptionsView { clean_session: clean, ..old(self)@ }),
            *final(self) == *final(r),
    {
        self.clean_session = clean;
        self
    }

    pub fn set_will(&mut self, topic: String, payload: Vec<u8>, qos: QualityOfService, retained: bool) -> (r: &mut Self)
        ensures
            (*r)@ == (ClientOptionsView { will_enabled: true, will_topic: topic@, will_payload: payload@, will_qos: qos, will_retained: retained, ..old(self)@ }),
            *final(self) == *final(r),
    {
        self.will_enabled = true;
        self.will_topic = topic;
        self.will_payload = payload;
        self.will_qos = qos;
        self.will_retained = retained;
        self
    }

    pub fn unset_will(&mut self, ) -> (r: &mut Self)
        ensures
            (*r)@ == (ClientOptionsView { will_enabled: false, ..old(self)@ }),
            *final(self) == *final(r),
    {
        self.will_enabled = false;
        self
    }

    pub fn set_keep_alive(&mut self, keep_alive_ms: u64) -> (r: &mut Self)
        ensures
            (*r)@ == (ClientOptionsView { keep_alive_ms: keep_alive_ms, ..old(self)@ }),
            *final(self) == *final(r),
    {
        self.keep_alive_ms = keep_alive_ms;
        self
    }

    pub fn set_connect_timeout(&mut self, connect_timeout_ms: u64) -> (r: &mut Self)
        ensures
            (*r)@ == (ClientOptionsView { connect_timeout_ms: connect_timeout_ms, ..old(self)@ }),
            *final(self) == *final(r),
    {
        self.connect_timeout_ms = connect_timeout_ms;
        self
    }

    pub fn set_auto_reconnect(&mut self, flag: bool) -> (r: &mut Self)
        ensures
            (*r)@ == (ClientOptionsView { auto_reconnect: flag, ..old(self)@ }),
            *final(self) == *final(r),
    {
        self.auto_reconnect = flag;
        self
    }

    pub fn set_connect_retry_interval(&mut self, interval_ms: u64) -> (r: &mut Self)
        ensures
            (*r)@ == (ClientOptionsView { connect_retry_interval_ms: interval_ms, ..old(self)@ }),
            *final(self) == *final(r),
    {
        self.connect_retry_interval_ms = interval_ms;
        self
    }

    pub fn set_max_connect_retry_times(&mut self, times: Option<u16>) -> (r: &mut Self)
        ensures
            (*r)@ == (ClientOptionsView { max_connect_retry_times: times, ..old(self)@ }),
            *final(self) == *final(r),
    {
        self.max_connect_retry_times = times;
        self
    }

    pub fn server(&self) -> (r: &String)
        ensures
            r@ == self@.server,
    {
        &self.server
    }

    pub fn client_id(&self) -> (r: &String)
        ensures
            r@ == self@.client_id,
    {
        &self.client_id
    }

    pub fn username(&self) -> (r: &String)
        ensures
            r@ == self@.username,
    {
        &self.username
    }

    pub fn password(&self) -> (r: &String)
        ensures
            r@ == self@.password,
    {
        &self.password
    }

    pub fn clean_session(&self) -> (r: bool)
        ensures
            r == self@.clean_session,
    {
        self.clean_session
    }

    pub fn will_enabled(&self) -> (r: bool)
        ensures
            r == self@.will_enabled,
    {
        self.will_enabled
    }

    pub fn will_topic(&self) -> (r: &String)
        ensures
            r@ == self@.will_topic,
    {
        &self.will_topic
    }

    pub fn will_payload(&self) -> (r: &Vec<u8>)
        ensures
            r@ == self@.will_payload,
    {
        &self.will_payload
    }

    pub fn will_qos(&self) -> (r: QualityOfService)
        ensures
            r == self@.will_qos,
    {
        self.will_qos
    }

    pub fn will_retained(&self) -> (r: bool)
        ensures
            r == self@.will_retained,
    {
        self.will_retained
    }

    pub fn keep_alive(&self) -> (r: u64)
        ensures
            r == self@.keep_alive_ms,
    {
        self.keep_alive_ms
    }

    pub fn connect_timeout(&self) -> (r: u64)
        ensures
            r == self@.connect_timeout_ms,
    {
        self.connect_timeout_ms
    }

    pub fn auto_reconnect(&self) -> (r: bool)
        ensures
            r == self@.auto_reconnect,
    {
        self.auto_reconnect
    }

    pub fn connect_retry_interval(&self) -> (r: u64)
        ensures
            r == self@.connect_retry_interval_ms,
    {
        self.connect_retry_interval_ms
    }

    pub fn max_connect_retry_times(&self) -> (r: Option<u16>)
        ensures
            r == self@.max_connect_retry_times,
    {
        self.max_connect_retry_times
    }
}

} // verus!
