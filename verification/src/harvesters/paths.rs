//! The files of the operating system that the radio harvesters read.

use crate::text::{append_decimal, numeral, texts};
use vstd::prelude::*;

verus! {

/// Bluetooth controllers whose features are read.
pub const CONTROLLERS: u64 = 4;

/// The path of a statistic of a network interface.
pub open spec fn statistic_file(interface: Seq<char>, statistic: Seq<char>) -> Seq<char> {
    "/sys/class/net/"@ + interface + "/statistics/"@ + statistic
}

fn statistic_path(interface: &str, statistic: &str) -> (path: String)
    ensures
        path@ == statistic_file(interface@, statistic@),
{
    let mut path: String = "/sys/class/net/".to_owned();
    path.append(interface);
    path.append("/statistics/");
    path.append(statistic);
    path
}

/// The path that exists for a network interface that is wireless.
pub fn wireless_path(interface: &str) -> (path: String)
    ensures
        path@ == "/sys/class/net/"@ + interface@ + "/wireless"@,
{
    let mut path: String = "/sys/class/net/".to_owned();
    path.append(interface);
    path.append("/wireless");
    path
}

/// The statistics that are read of wireless interfaces.
pub struct WifiSources {
    pub paths: Vec<String>,
    /// Whether only the first path counts that can be read.
    pub first_only: bool,
}

/// The statistics that are read: those of the interface that was chosen, or else of the wireless one
/// that was found, or else of the first that there is under a usual name.
pub open spec fn wifi_statistics(chosen: Seq<char>, found: Option<Seq<char>>) -> (
    Seq<Seq<char>>,
    bool,
) {
    if chosen.len() > 0 {
        (
            seq![
                statistic_file(chosen, "rx_bytes"@),
                statistic_file(chosen, "tx_bytes"@),
                statistic_file(chosen, "rx_dropped"@),
                statistic_file(chosen, "collisions"@),
            ],
            false,
        )
    } else {
        match found {
            Some(name) => (
                seq![
                    statistic_file(name, "rx_bytes"@),
                    statistic_file(name, "tx_bytes"@),
                    statistic_file(name, "collisions"@),
                ],
                false,
            ),
            None => (
                seq![
                    statistic_file("wlan0"@, "rx_bytes"@),
                    statistic_file("wlp2s0"@, "rx_bytes"@),
                    statistic_file("wlp3s0"@, "rx_bytes"@),
                    statistic_file("wifi0"@, "rx_bytes"@),
                ],
                true,
            ),
        }
    }
}

/// Chooses the statistics that are read. `found` is the wireless interface that was found, if there
/// is one.
pub fn wifi_sources(chosen: &str, found: Option<&str>) -> (sources: WifiSources)
    ensures
        (texts(sources.paths@), sources.first_only) == wifi_statistics(
            chosen@,
            match found {
                Some(name) => Some(name@),
                None => None,
            },
        ),
{
    let mut paths: Vec<String> = Vec::new();
    let mut first_only: bool = false;
    if !chosen.is_empty() {
        paths.push(statistic_path(chosen, "rx_bytes"));
        paths.push(statistic_path(chosen, "tx_bytes"));
        paths.push(statistic_path(chosen, "rx_dropped"));
        paths.push(statistic_path(chosen, "collisions"));
    } else if let Some(name) = found {
        paths.push(statistic_path(name, "rx_bytes"));
        paths.push(statistic_path(name, "tx_bytes"));
        paths.push(statistic_path(name, "collisions"));
    } else {
        paths.push(statistic_path("wlan0", "rx_bytes"));
        paths.push(statistic_path("wlp2s0", "rx_bytes"));
        paths.push(statistic_path("wlp3s0", "rx_bytes"));
        paths.push(statistic_path("wifi0", "rx_bytes"));
        first_only = true;
    }
    assert(texts(paths@) =~= wifi_statistics(
        chosen@,
        match found {
            Some(name) => Some(name@),
            None => None,
        },
    ).0);
    WifiSources { paths, first_only }
}

/// The path of an attribute of a Bluetooth adapter.
pub fn bluetooth_path(adapter: &str, attribute: &str) -> (path: String)
    ensures
        path@ == "/sys/class/bluetooth/"@ + adapter@ + "/"@ + attribute@,
{
    let mut path: String = "/sys/class/bluetooth/".to_owned();
    path.append(adapter);
    path.append("/");
    path.append(attribute);
    path
}

/// The attributes that are read of a Bluetooth adapter.
pub fn adapter_paths(adapter: &str) -> (paths: Vec<String>)
    ensures
        texts(paths@) == seq![
            "/sys/class/bluetooth/"@ + adapter@ + "/"@ + "address"@,
            "/sys/class/bluetooth/"@ + adapter@ + "/"@ + "type"@,
        ],
{
    let mut paths: Vec<String> = Vec::new();
    paths.push(bluetooth_path(adapter, "address"));
    paths.push(bluetooth_path(adapter, "type"));
    assert(texts(paths@) =~= seq![paths@[0]@, paths@[1]@]);
    paths
}

/// The path of the features of a Bluetooth controller.
pub open spec fn features_file(number: nat) -> Seq<char> {
    "/sys/kernel/debug/bluetooth/hci"@ + numeral(number) + "/features"@
}

/// The features that are read of Bluetooth controllers.
pub fn features_paths() -> (paths: Vec<String>)
    ensures
        texts(paths@) == Seq::new(CONTROLLERS as nat, |i: int| features_file(i as nat)),
{
    let mut paths: Vec<String> = Vec::new();
    let mut number: u64 = 0;
    while number < CONTROLLERS
        invariant
            number <= CONTROLLERS,
            paths@.len() == number,
            forall|i: int| 0 <= i < number ==> (#[trigger] paths@[i])@ == features_file(i as nat),
        decreases CONTROLLERS - number,
    {
        let mut path: String = "/sys/kernel/debug/bluetooth/hci".to_owned();
        append_decimal(&mut path, number);
        path.append("/features");
        paths.push(path);
        number += 1;
    }
    assert(texts(paths@) =~= Seq::new(CONTROLLERS as nat, |i: int| features_file(i as nat)));
    paths
}

/// All statistics that are read of an interface are files under that interface, the received and the
/// sent bytes among them. Without an interface the usual names are tried, and only the first that can
/// be read counts.
pub proof fn law_statistics_belong_to_the_interface(
    chosen: Seq<char>,
    found: Option<Seq<char>>,
    k: int,
)
    requires
        0 <= k < wifi_statistics(chosen, found).0.len(),
    ensures
        ({
            let (paths, first_only) = wifi_statistics(chosen, found);
            let interface = if chosen.len() > 0 {
                chosen
            } else {
                found->0
            };
            let known = chosen.len() > 0 || found is Some;
            let front = "/sys/class/net/"@ + interface + "/statistics/"@;
            &&& first_only <==> !known
            &&& known ==> front.is_prefix_of(paths[k])
            &&& known ==> paths.contains(front + "rx_bytes"@) && paths.contains(
                front + "tx_bytes"@,
            ) && paths.contains(front + "collisions"@)
            &&& !known ==> "/sys/class/net/"@.is_prefix_of(paths[k])
        }),
{
    let (paths, first_only) = wifi_statistics(chosen, found);
    let interface = if chosen.len() > 0 {
        chosen
    } else {
        found->0
    };
    let front = "/sys/class/net/"@ + interface + "/statistics/"@;
    let net = "/sys/class/net/"@;
    if chosen.len() > 0 || found is Some {
        assert(paths[k].subrange(0, front.len() as int) =~= front);
        assert(paths[0] == front + "rx_bytes"@);
        assert(paths[1] == front + "tx_bytes"@);
        assert(paths[paths.len() - 1] == front + "collisions"@);
    } else {
        assert(paths[k].subrange(0, net.len() as int) =~= net);
    }
}

} // verus!
