//! The cluster connection profiles and the choice of the default one.
use vstd::prelude::*;

verus! {

/// A named cluster and the brokers to bootstrap from.
#[derive(Clone, Debug)]
pub struct ClusterConfig {
    pub name: String,
    pub bootstrap_servers: Vec<String>,
}

pub open spec fn strings_view(s: Seq<String>) -> Seq<Seq<char>> {
    s.map_values(|x: String| x@)
}

impl View for ClusterConfig {
    type V = (Seq<char>, Seq<Seq<char>>);

    open spec fn view(&self) -> (Seq<char>, Seq<Seq<char>>) {
        (self.name@, strings_view(self.bootstrap_servers@))
    }
}

/// The known clusters, each under its key, and the key of the default one.
pub struct Config {
    clusters: Vec<(String, ClusterConfig)>,
    default_cluster: String,
}

pub struct ConfigView {
    pub clusters: Seq<(Seq<char>, (Seq<char>, Seq<Seq<char>>))>,
    pub default_cluster: Seq<char>,
}

impl View for Config {
    type V = ConfigView;

    closed spec fn view(&self) -> ConfigView {
        ConfigView {
            clusters: self.clusters@.map_values(|e: (String, ClusterConfig)| (e.0@, e.1@)),
            default_cluster: self.default_cluster@,
        }
    }
}

pub open spec fn profile(name: Seq<char>, server: Seq<char>) -> (Seq<char>, Seq<Seq<char>>) {
    (name, seq![server])
}

/// The profiles a fresh configuration holds.
pub open spec fn preset_clusters() -> Seq<(Seq<char>, (Seq<char>, Seq<Seq<char>>))> {
    seq![
        ("dev"@, profile("dev"@, "192.168.225.10:9092"@)),
        ("prod"@, profile("prod"@, "10.10.18.89:9093"@)),
        ("local"@, profile("local"@, "localhost:9092"@)),
    ]
}

/// The profile used when the default key names no cluster.
pub open spec fn fallback_profile() -> (Seq<char>, Seq<Seq<char>>) {
    profile("default"@, "localhost:9092"@)
}

/// The index of the first cluster under `key`, or -1.
pub open spec fn cluster_index(
    clusters: Seq<(Seq<char>, (Seq<char>, Seq<Seq<char>>))>,
    key: Seq<char>,
) -> int
    decreases clusters.len(),
{
    if clusters.len() == 0 {
        -1
    } else {
        let earlier = cluster_index(clusters.drop_last(), key);
        if earlier >= 0 {
            earlier
        } else if clusters.last().0 == key {
            clusters.len() - 1
        } else {
            -1
        }
    }
}

/// The profile under `key`, or the fallback profile.
pub open spec fn profile_or_fallback(
    clusters: Seq<(Seq<char>, (Seq<char>, Seq<Seq<char>>))>,
    key: Seq<char>,
) -> (Seq<char>, Seq<Seq<char>>) {
    let i = cluster_index(clusters, key);
    if i >= 0 {
        clusters[i].1
    } else {
        fallback_profile()
    }
}

pub open spec fn missing_cluster_text(key: Seq<char>) -> Seq<char> {
    "Cluster key '"@ + key + "' does not exist in the config"@
}

fn single_server_profile(name: &str, server: &str) -> (r: ClusterConfig)
    ensures
        r@ == profile(name@, server@),
{
    let mut servers: Vec<String> = Vec::new();
    servers.push(String::from_str(server));
    assert(strings_view(servers@) =~= seq![server@]);
    ClusterConfig { name: String::from_str(name), bootstrap_servers: servers }
}

/// The parts one after another, with `sep` between each two.
pub open spec fn joined(parts: Seq<Seq<char>>, sep: Seq<char>) -> Seq<char>
    decreases parts.len(),
{
    if parts.len() == 0 {
        seq![]
    } else if parts.len() == 1 {
        parts[0]
    } else {
        joined(parts.drop_last(), sep) + sep + parts.last()
    }
}

impl ClusterConfig {
    /// The bootstrap brokers as the client takes them: separated by commas.
    pub fn bootstrap_list(&self) -> (r: String)
        ensures
            r@ == joined(strings_view(self.bootstrap_servers@), ","@),
    {
        let servers = &self.bootstrap_servers;
        let ghost parts = strings_view(servers@);
        let mut r = String::new();
        let mut i: usize = 0;
        while i < servers.len()
            invariant
                0 <= i <= servers@.len(),
                parts == strings_view(servers@),
                r@ == joined(parts.take(i as int), ","@),
            decreases servers@.len() - i,
        {
            assert(parts.take(i as int + 1).drop_last() =~= parts.take(i as int));
            assert(parts.take(i as int + 1).last() == servers@[i as int]@);
            if i > 0 {
                r.append(",");
            } else {
                assert(r@ + servers@[0]@ =~= servers@[0]@);
            }
            r.append(servers[i].as_str());
            i += 1;
        }
        assert(parts.take(i as int) =~= parts);
        r
    }

    /// A copy of the profile.
    pub fn copied(&self) -> (r: ClusterConfig)
        ensures
            r@ == self@,
    {
        let mut servers: Vec<String> = Vec::new();
        let mut i: usize = 0;
        while i < self.bootstrap_servers.len()
            invariant
                0 <= i <= self.bootstrap_servers@.len(),
                strings_view(servers@) == strings_view(self.bootstrap_servers@).take(i as int),
            decreases self.bootstrap_servers@.len() - i,
        {
            let ghost before = servers@;
            servers.push(self.bootstrap_servers[i].clone());
            assert(strings_view(servers@) =~= strings_view(before).push(
                self.bootstrap_servers@[i as int]@,
            ));
            assert(strings_view(servers@) =~= strings_view(self.bootstrap_servers@).take(
                i as int + 1,
            ));
            i += 1;
        }
        assert(strings_view(self.bootstrap_servers@).take(i as int) =~= strings_view(
            self.bootstrap_servers@,
        ));
        ClusterConfig { name: self.name.clone(), bootstrap_servers: servers }
    }
}

impl Config {
    /// The profiles of the known clusters, in the order they are kept.
    pub fn clusters(&self) -> (r: Vec<ClusterConfig>)
        ensures
            r@.map_values(|c: ClusterConfig| c@) == self@.clusters.map_values(
                |e: (Seq<char>, (Seq<char>, Seq<Seq<char>>))| e.1,
            ),
    {
        let mut r: Vec<ClusterConfig> = Vec::new();
        let mut i: usize = 0;
        while i < self.clusters.len()
            invariant
                0 <= i <= self.clusters@.len(),
                r@.map_values(|c: ClusterConfig| c@) == self@.clusters.map_values(
                    |e: (Seq<char>, (Seq<char>, Seq<Seq<char>>))| e.1,
                ).take(i as int),
            decreases self.clusters@.len() - i,
        {
            let ghost before = r@;
            let c = self.clusters[i].1.copied();
            assert(c@ == self@.clusters[i as int].1);
            r.push(c);
            assert(r@.map_values(|c: ClusterConfig| c@) =~= before.map_values(
                |c: ClusterConfig| c@,
            ).push(self@.clusters[i as int].1));
            assert(r@.map_values(|c: ClusterConfig| c@) =~= self@.clusters.map_values(
                |e: (Seq<char>, (Seq<char>, Seq<Seq<char>>))| e.1,
            ).take(i as int + 1));
            i += 1;
        }
        assert(self@.clusters.map_values(|e: (Seq<char>, (Seq<char>, Seq<Seq<char>>))| e.1).take(
            i as int,
        ) =~= self@.clusters.map_values(|e: (Seq<char>, (Seq<char>, Seq<Seq<char>>))| e.1));
        r
    }

    /// The built-in profiles `dev`, `prod` and `local`, with `local` the default.
    pub fn load() -> (r: Config)
        ensures
            r@.clusters == preset_clusters(),
            r@.default_cluster == "local"@,
    {
        let mut clusters: Vec<(String, ClusterConfig)> = Vec::new();
        clusters.push((String::from_str("dev"), single_server_profile("dev", "192.168.225.10:9092")));
        clusters.push((String::from_str("prod"), single_server_profile("prod", "10.10.18.89:9093")));
        clusters.push((String::from_str("local"), single_server_profile("local", "localhost:9092")));
        let r = Config { clusters, default_cluster: String::from_str("local") };
        assert(r@.clusters =~= preset_clusters());
        r
    }

    fn position(&self, key: &String) -> (r: Option<usize>)
        ensures
            r matches Some(i) ==> i < self@.clusters.len() && cluster_index(self@.clusters, key@)
                == i,
            r is None ==> cluster_index(self@.clusters, key@) == -1,
    {
        let ghost all = self@.clusters;
        let mut i: usize = 0;
        while i < self.clusters.len()
            invariant
                0 <= i <= self.clusters@.len(),
                all == self@.clusters,
                all.len() == self.clusters@.len(),
                cluster_index(all.take(i as int), key@) == -1,
            decreases self.clusters@.len() - i,
        {
            assert(all.take(i as int + 1).drop_last() =~= all.take(i as int));
            assert(all.take(i as int + 1).last() == all[i as int]);
            if self.clusters[i].0 == *key {
                assert(cluster_index(all.take(i as int + 1), key@) == i);
                proof {
                    lemma_cluster_index_prefix(all, key@, i as int + 1);
                }
                return Some(i);
            }
            i += 1;
        }
        assert(all.take(all.len() as int) =~= all);
        None
    }

    /// Makes the cluster under `cluster` the default and hands back its profile; a key that
    /// names no cluster is refused and the configuration left as it was.
    pub fn set_default_cluster(&mut self, cluster: &str) -> (r: Result<ClusterConfig, String>)
        ensures
            cluster_index(old(self)@.clusters, cluster@) >= 0 ==> (r matches Ok(c) && c@ == old(
                self,
            )@.clusters[cluster_index(old(self)@.clusters, cluster@)].1 && final(self)@
                == (ConfigView { default_cluster: cluster@, ..old(self)@ })),
            cluster_index(old(self)@.clusters, cluster@) < 0 ==> (r matches Err(m) && m@
                == missing_cluster_text(cluster@) && final(self)@ == old(self)@),
    {
        let key = String::from_str(cluster);
        match self.position(&key) {
            Some(i) => {
                let profile = self.clusters[i].1.copied();
                self.default_cluster = key;
                Ok(profile)
            },
            None => {
                let mut m = String::from_str("Cluster key '");
                m.append(cluster);
                m.append("' does not exist in the config");
                Err(m)
            },
        }
    }

    /// The profile of the default cluster, or a profile for a broker on this machine if the
    /// default key names no cluster.
    pub fn default_cluster_config(&self) -> (r: ClusterConfig)
        ensures
            r@ == profile_or_fallback(self@.clusters, self@.default_cluster),
    {
        match self.position(&self.default_cluster) {
            Some(i) => self.clusters[i].1.copied(),
            None => single_server_profile("default", "localhost:9092"),
        }
    }
}

proof fn lemma_cluster_index_prefix(
    clusters: Seq<(Seq<char>, (Seq<char>, Seq<Seq<char>>))>,
    key: Seq<char>,
    k: int,
)
    requires
        0 <= k <= clusters.len(),
        cluster_index(clusters.take(k), key) >= 0,
    ensures
        cluster_index(clusters, key) == cluster_index(clusters.take(k), key),
    decreases clusters.len() - k,
{
    if k < clusters.len() {
        assert(clusters.take(k + 1).drop_last() =~= clusters.take(k));
        lemma_cluster_index_prefix(clusters, key, k + 1);
    } else {
        assert(clusters.take(k) =~= clusters);
    }
}

} // verus!
